//! The chat client's own logic: picking a media type from a file name,
//! normalizing the server address, building user messages (with an optional
//! image), and reading commands typed at the interactive prompt.

use vstd::prelude::*;

use crate::chat::{ContentPart, Message, MessageContent, MessageRole};
use crate::text::{
    ascii_lowercase, ascii_lowercase_chars, chars_eq, chars_of, copy_range, extend_chars,
    has_prefix, starts_with_chars, string_from_chars, strip_trailing, strip_trailing_chars, trim,
    trim_chars,
};
use crate::vision_input::{
    base64_encode, base64_standard_encode, is_base64_char, lemma_base64_payload_as_is,
    part_image_bytes,
};

verus! {

/// The position of the last `c` in `s`, or -1.
pub open spec fn last_index_of(s: Seq<char>, c: char) -> int
    decreases s.len(),
{
    if s.len() == 0 {
        -1
    } else if s.last() == c {
        s.len() - 1
    } else {
        last_index_of(s.drop_last(), c)
    }
}

/// `last_index_of` finds the last `c`, if there is one.
pub proof fn lemma_last_index_of(s: Seq<char>, c: char)
    ensures
        -1 <= last_index_of(s, c) < s.len(),
        last_index_of(s, c) >= 0 ==> s[last_index_of(s, c)] == c,
        forall|j: int| last_index_of(s, c) < j < s.len() ==> s[j] != c,
    decreases s.len(),
{
    if s.len() > 0 {
        lemma_last_index_of(s.drop_last(), c);
        if s.last() != c {
            assert forall|j: int| last_index_of(s, c) < j < s.len() implies s[j] != c by {
                if j < s.len() - 1 {
                    assert(s.drop_last()[j] == s[j]);
                }
            }
        }
    }
}

/// Stripping trailing `c`s leaves a prefix that does not end in `c`.
pub proof fn lemma_strip_trailing_len(s: Seq<char>, c: char)
    ensures
        strip_trailing(s, c).len() <= s.len(),
        strip_trailing(s, c) == s.take(strip_trailing(s, c).len() as int),
        strip_trailing(s, c).len() > 0 ==> strip_trailing(s, c).last() != c,
    decreases s.len(),
{
    if s.len() > 0 && s.last() == c {
        lemma_strip_trailing_len(s.drop_last(), c);
        assert(s.drop_last().take(strip_trailing(s, c).len() as int) == s.take(
            strip_trailing(s, c).len() as int,
        ));
    } else {
        assert(s.take(s.len() as int) == s);
    }
}

/// The last component of a path the way `std::path::Path` splits it:
/// separators are `/`, repeated and trailing separators are ignored, and
/// `.` components are skipped, except a leading one, which is the current
/// directory. `None` when the path ends in the root or the current
/// directory (or is empty).
pub open spec fn last_component(s: Seq<char>) -> Option<Seq<char>>
    decreases s.len(),
{
    let t = strip_trailing(s, '/');
    if t.len() == 0 {
        None
    } else {
        let k = last_index_of(t, '/');
        let comp = t.subrange(k + 1, t.len() as int);
        if comp == seq!['.'] {
            if k < 0 {
                None
            } else {
                proof {
                    lemma_strip_trailing_len(s, '/');
                    lemma_last_index_of(t, '/');
                }
                last_component(t.subrange(0, k))
            }
        } else {
            Some(comp)
        }
    }
}

/// `Path::file_name`: the last component, unless it is `..`.
pub open spec fn file_name(path: Seq<char>) -> Option<Seq<char>> {
    match last_component(path) {
        Some(c) => if c == seq!['.', '.'] {
            None
        } else {
            Some(c)
        },
        None => None,
    }
}

/// `Path::extension`: what follows the last `.` of the file name, unless the
/// name has no `.` or its only leading `.` starts it.
pub open spec fn path_extension(path: Seq<char>) -> Option<Seq<char>> {
    match file_name(path) {
        Some(name) => {
            let k = last_index_of(name, '.');
            if k <= 0 {
                None
            } else {
                Some(name.skip(k + 1))
            }
        },
        None => None,
    }
}

/// The mime type that belongs to a (lower-case) image file extension.
pub open spec fn media_type_for_extension(ext: Seq<char>) -> Option<Seq<char>> {
    if ext == seq!['p', 'n', 'g'] {
        Some(seq!['i', 'm', 'a', 'g', 'e', '/', 'p', 'n', 'g'])
    } else if ext == seq!['j', 'p', 'g'] || ext == seq!['j', 'p', 'e', 'g'] {
        Some(seq!['i', 'm', 'a', 'g', 'e', '/', 'j', 'p', 'e', 'g'])
    } else if ext == seq!['w', 'e', 'b', 'p'] {
        Some(seq!['i', 'm', 'a', 'g', 'e', '/', 'w', 'e', 'b', 'p'])
    } else if ext == seq!['b', 'm', 'p'] {
        Some(seq!['i', 'm', 'a', 'g', 'e', '/', 'b', 'm', 'p'])
    } else {
        None
    }
}

/// The mime type guessed from a path's extension (compared without case).
pub open spec fn guessed_media_type(path: Seq<char>) -> Option<Seq<char>> {
    match path_extension(path) {
        Some(ext) => media_type_for_extension(ascii_lowercase(ext)),
        None => media_type_for_extension(Seq::empty()),
    }
}

pub open spec fn opt_string_view(o: Option<String>) -> Option<Seq<char>> {
    match o {
        Some(s) => Some(s@),
        None => None,
    }
}

fn last_index_of_chars(v: &Vec<char>, c: char) -> (r: Option<usize>)
    ensures
        match r {
            Some(k) => last_index_of(v@, c) == k as int,
            None => last_index_of(v@, c) == -1,
        },
{
    let mut i: usize = v.len();
    assert(v@.take(v@.len() as int) == v@);
    while i > 0
        invariant
            i <= v.len(),
            last_index_of(v@, c) == last_index_of(v@.take(i as int), c),
        decreases i,
    {
        assert(v@.take(i as int).drop_last() == v@.take(i - 1));
        assert(v@.take(i as int).last() == v@[i - 1]);
        if v[i - 1] == c {
            return Some(i - 1);
        }
        i = i - 1;
    }
    None
}

fn literal_chars(s: &str) -> (r: Vec<char>)
    ensures
        r@ == s@,
{
    chars_of(s)
}

fn last_component_chars(v: &Vec<char>) -> (r: Option<Vec<char>>)
    ensures
        match r {
            Some(c) => last_component(v@) == Some(c@),
            None => last_component(v@) is None,
        },
    decreases v.len(),
{
    let t = strip_trailing_chars(v, '/');
    proof {
        lemma_strip_trailing_len(v@, '/');
    }
    if t.len() == 0 {
        return None;
    }
    proof {
        lemma_last_index_of(t@, '/');
    }
    let k = last_index_of_chars(&t, '/');
    let start: usize = match k {
        Some(k) => k + 1,
        None => 0,
    };
    let comp = copy_range(&t, start, t.len());
    let dot = literal_chars(".");
    proof {
        reveal_strlit(".");
        assert(dot@ =~= seq!['.']);
        assert(start as int == last_index_of(t@, '/') + 1);
    }
    if chars_eq(&comp, &dot) {
        match k {
            None => None,
            Some(k) => {
                let head = copy_range(&t, 0, k);
                last_component_chars(&head)
            },
        }
    } else {
        Some(comp)
    }
}

fn media_type_for_extension_exec(ext: &Vec<char>) -> (r: Option<String>)
    ensures
        opt_string_view(r) == media_type_for_extension(ext@),
{
    proof {
        reveal_strlit("png");
        reveal_strlit("jpg");
        reveal_strlit("jpeg");
        reveal_strlit("webp");
        reveal_strlit("bmp");
        reveal_strlit("image/png");
        reveal_strlit("image/jpeg");
        reveal_strlit("image/webp");
        reveal_strlit("image/bmp");
    }
    let png = literal_chars("png");
    let jpg = literal_chars("jpg");
    let jpeg = literal_chars("jpeg");
    let webp = literal_chars("webp");
    let bmp = literal_chars("bmp");
    assert(png@ =~= seq!['p', 'n', 'g']);
    assert(jpg@ =~= seq!['j', 'p', 'g']);
    assert(jpeg@ =~= seq!['j', 'p', 'e', 'g']);
    assert(webp@ =~= seq!['w', 'e', 'b', 'p']);
    assert(bmp@ =~= seq!['b', 'm', 'p']);
    assert("image/png"@ =~= seq!['i', 'm', 'a', 'g', 'e', '/', 'p', 'n', 'g']);
    assert("image/jpeg"@ =~= seq!['i', 'm', 'a', 'g', 'e', '/', 'j', 'p', 'e', 'g']);
    assert("image/webp"@ =~= seq!['i', 'm', 'a', 'g', 'e', '/', 'w', 'e', 'b', 'p']);
    assert("image/bmp"@ =~= seq!['i', 'm', 'a', 'g', 'e', '/', 'b', 'm', 'p']);
    if chars_eq(ext, &png) {
        Some(String::from_str("image/png"))
    } else if chars_eq(ext, &jpg) || chars_eq(ext, &jpeg) {
        Some(String::from_str("image/jpeg"))
    } else if chars_eq(ext, &webp) {
        Some(String::from_str("image/webp"))
    } else if chars_eq(ext, &bmp) {
        Some(String::from_str("image/bmp"))
    } else {
        None
    }
}

/// The extension of `path`, as `Path::extension` finds it.
pub fn path_extension_chars(path: &str) -> (r: Option<Vec<char>>)
    ensures
        match r {
            Some(e) => path_extension(path@) == Some(e@),
            None => path_extension(path@) is None,
        },
{
    let v = chars_of(path);
    let name = match last_component_chars(&v) {
        Some(c) => c,
        None => return None,
    };
    let dotdot = literal_chars("..");
    proof {
        reveal_strlit("..");
        assert(dotdot@ =~= seq!['.', '.']);
    }
    if chars_eq(&name, &dotdot) {
        return None;
    }
    proof {
        lemma_last_index_of(name@, '.');
    }
    match last_index_of_chars(&name, '.') {
        Some(k) => {
            proof {
                lemma_last_index_of(name@, '.');
            }
            assert(k < name.len());
            if k == 0 {
                None
            } else {
                Some(copy_range(&name, k + 1, name.len()))
            }
        },
        None => None,
    }
}

/// Guesses the mime type of an image from its file extension (`png`,
/// `jpg`/`jpeg`, `webp`, `bmp`, in any case); `None` for anything else.
pub fn guess_media_type(path: &str) -> (r: Option<String>)
    ensures
        opt_string_view(r) == guessed_media_type(path@),
{
    let ext = match path_extension_chars(path) {
        Some(e) => e,
        None => Vec::new(),
    };
    let lower = ascii_lowercase_chars(&ext);
    assert(ext@.len() == 0 ==> ascii_lowercase(ext@) =~= Seq::<char>::empty());
    media_type_for_extension_exec(&lower)
}

/// The base URL of the chat server: surrounding whitespace removed, `http://`
/// put in front unless the address names `http://` or `https://`, trailing
/// slashes removed. Empty input stays empty.
pub open spec fn normalized_api_base(raw: Seq<char>) -> Seq<char> {
    let t = trim(raw);
    if t.len() == 0 {
        t
    } else {
        let http = seq!['h', 't', 't', 'p', ':', '/', '/'];
        let https = seq!['h', 't', 't', 'p', 's', ':', '/', '/'];
        let with_scheme = if has_prefix(t, http) || has_prefix(t, https) {
            t
        } else {
            http + t
        };
        strip_trailing(with_scheme, '/')
    }
}

/// Normalizes the address given for the chat server into a base URL.
pub fn normalize_api_base(raw: &str) -> (r: String)
    ensures
        r@ == normalized_api_base(raw@),
{
    let t = trim_chars(&chars_of(raw));
    if t.len() == 0 {
        return string_from_chars(t.as_slice());
    }
    let http = literal_chars("http://");
    let https = literal_chars("https://");
    proof {
        reveal_strlit("http://");
        reveal_strlit("https://");
        assert(http@ =~= seq!['h', 't', 't', 'p', ':', '/', '/']);
        assert(https@ =~= seq!['h', 't', 't', 'p', 's', ':', '/', '/']);
    }
    let with_scheme = if starts_with_chars(&t, &http) || starts_with_chars(&t, &https) {
        t
    } else {
        let mut w = http;
        extend_chars(&mut w, &t);
        w
    };
    let r = strip_trailing_chars(&with_scheme, '/');
    string_from_chars(r.as_slice())
}

/// The chat completions endpoint under a base URL.
pub open spec fn chat_completions_path() -> Seq<char> {
    seq![
        '/', 'a', 'p', 'i', '/', 'v', '1', '/', 'c', 'h', 'a', 't', '/', 'c', 'o', 'm', 'p', 'l',
        'e', 't', 'i', 'o', 'n', 's',
    ]
}

/// `{base}/api/v1/chat/completions`.
pub fn chat_completions_url(base: &str) -> (r: String)
    ensures
        r@ == base@ + chat_completions_path(),
{
    let path = "/api/v1/chat/completions";
    proof {
        reveal_strlit("/api/v1/chat/completions");
    }
    String::from_str(base).concat(path)
}

/// An `image_base64` part for an image file: the media type guessed from the
/// file name, the bytes base64-encoded. The model side decodes the part back
/// to exactly these bytes.
pub fn image_part_from_bytes(path: &str, bytes: &[u8]) -> (r: ContentPart)
    requires
        bytes@.len() / 3 * 4 + 4 <= usize::MAX,
    ensures
        r matches ContentPart::ImageBase64 { media_type, data } && opt_string_view(media_type)
            == guessed_media_type(path@) && data@ == base64_standard_encode(bytes@),
        part_image_bytes(r) == Some(Ok::<Seq<u8>, crate::vision_input::ImageFailure>(bytes@)),
{
    let media_type = guess_media_type(path);
    let data = base64_encode(bytes);
    proof {
        lemma_base64_payload_as_is(data@);
    }
    ContentPart::ImageBase64 { media_type, data }
}

/// Content made of the text part `text` followed by an image part: media
/// type guessed from `path`, data the base64 encoding of `bytes` (which the
/// model side decodes back to exactly `bytes`).
pub open spec fn text_then_image(c: MessageContent, text: Seq<char>, path: Seq<char>, bytes: Seq<u8>) -> bool {
    &&& c matches MessageContent::Parts(parts)
    &&& parts@.len() == 2
    &&& parts@[0] matches ContentPart::Text { text: t } && t@ == text
    &&& parts@[1] matches ContentPart::ImageBase64 { media_type, data }
    &&& opt_string_view(media_type) == guessed_media_type(path)
    &&& data@ == base64_standard_encode(bytes)
    &&& part_image_bytes(parts@[1]) == Some(Ok::<Seq<u8>, crate::vision_input::ImageFailure>(bytes))
}

/// A user message: plain text, or, with an image, the text part followed by
/// the image part (`content: [text, image_base64]`).
pub fn user_message_text_or_image(text: String, image: Option<(&str, &[u8])>) -> (r: Message)
    requires
        image matches Some((_, b)) ==> b@.len() / 3 * 4 + 4 <= usize::MAX,
    ensures
        r.role == MessageRole::User,
        image is None ==> r.content == MessageContent::Text(text),
        image matches Some((path, bytes)) ==> text_then_image(r.content, text@, path@, bytes@),
{
    match image {
        Some((path, bytes)) => {
            let mut parts: Vec<ContentPart> = Vec::new();
            parts.push(ContentPart::Text { text });
            parts.push(image_part_from_bytes(path, bytes));
            Message { role: MessageRole::User, content: MessageContent::Parts(parts) }
        },
        None => Message::user(text),
    }
}

} // verus!

verus! {

/// Which model family a checkpoint directory holds.
#[derive(Debug, Clone, Copy, PartialEq, Eq, Structural)]
pub enum ModelKind {
    Qwen3Vl,
    Llama3,
}

/// The model family named by the `model_type` of a checkpoint's
/// `config.json` (when it is a string): Qwen3-VL for `qwen3_vl`, Llama 3 for
/// anything else or nothing.
pub fn model_kind(model_type: Option<&str>) -> (r: ModelKind)
    ensures
        r == (if model_type matches Some(t) && t@ == seq!['q', 'w', 'e', 'n', '3', '_', 'v', 'l'] {
            ModelKind::Qwen3Vl
        } else {
            ModelKind::Llama3
        }),
{
    match model_type {
        Some(t) => {
            let q = literal_chars("qwen3_vl");
            proof {
                reveal_strlit("qwen3_vl");
                assert(q@ =~= seq!['q', 'w', 'e', 'n', '3', '_', 'v', 'l']);
            }
            if chars_eq(&chars_of(t), &q) {
                ModelKind::Qwen3Vl
            } else {
                ModelKind::Llama3
            }
        },
        None => ModelKind::Llama3,
    }
}

/// What a checkpoint's `config.json` says of its model family, as
/// `serde_json::from_slice` reads the bytes into a `serde_json::Value`:
/// `None` when the bytes are not JSON; otherwise the `model_type` member
/// when it is a string.
pub uninterp spec fn config_model_type(raw: Seq<u8>) -> Option<Option<Seq<char>>>;

/// Parses `config.json` (`serde_json::from_slice` into a `Value`) and picks
/// its `model_type` string. A parse error comes back as its text.
#[verifier::external_body]
pub fn json_model_type(raw: &[u8]) -> (r: Result<Option<String>, String>)
    ensures
        match r {
            Ok(t) => config_model_type(raw@) == Some(opt_string_view(t)),
            Err(_) => config_model_type(raw@) is None,
        },
{
    match serde_json::from_slice::<serde_json::Value>(raw) {
        Ok(v) => Ok(v.get("model_type").and_then(|t| t.as_str()).map(|t| t.to_string())),
        Err(e) => Err(e.to_string()),
    }
}

/// The model family of a checkpoint from the bytes of its `config.json`:
/// text that is not JSON is an error (the parser's message); otherwise the
/// family that `model_kind` picks for its `model_type`.
pub fn model_kind_of_config(raw: &[u8]) -> (r: Result<ModelKind, String>)
    ensures
        match config_model_type(raw@) {
            None => r is Err,
            Some(t) => r matches Ok(k) && k == (if t == Some(seq!['q', 'w', 'e', 'n', '3', '_', 'v', 'l']) {
                ModelKind::Qwen3Vl
            } else {
                ModelKind::Llama3
            }),
        },
{
    match json_model_type(raw) {
        Ok(t) => match t {
            Some(name) => Ok(model_kind(Some(name.as_str()))),
            None => Ok(model_kind(None)),
        },
        Err(e) => Err(e),
    }
}

/// The question of a single-shot run: `--ask` if given, else a non-empty
/// `--prompt`, else nothing (then the question is read from stdin).
pub fn single_shot_prompt(ask: Option<String>, prompt: String) -> (r: Option<String>)
    ensures
        ask is Some ==> r == ask,
        ask is None ==> r == (if prompt@.len() == 0 {
            None::<String>
        } else {
            Some(prompt)
        }),
{
    match ask {
        Some(a) => Some(a),
        None => if prompt.as_str().is_empty() {
            None
        } else {
            Some(prompt)
        },
    }
}

/// What a line typed at the interactive prompt asks for.
#[derive(Debug, Clone)]
pub enum ReplInput {
    /// A blank line: nothing to do.
    Skip,
    /// `/q`, `/quit` or `/exit`.
    Quit,
    /// A malformed `/img` command: show how to use it.
    Usage,
    /// A question, with an image file for `/img <path> <question>`.
    Ask { text: String, image_path: Option<String> },
}

/// The meaning of a `ReplInput`.
pub ghost enum ReplSpec {
    Skip,
    Quit,
    Usage,
    Ask(Seq<char>, Option<Seq<char>>),
}

pub open spec fn repl_view(r: ReplInput) -> ReplSpec {
    match r {
        ReplInput::Skip => ReplSpec::Skip,
        ReplInput::Quit => ReplSpec::Quit,
        ReplInput::Usage => ReplSpec::Usage,
        ReplInput::Ask { text, image_path } => ReplSpec::Ask(text@, opt_string_view(image_path)),
    }
}

/// The position of the first whitespace character of `s`, or its length.
pub open spec fn first_white_space(s: Seq<char>) -> int
    decreases s.len(),
{
    if s.len() == 0 {
        0
    } else if crate::text::is_white_space(s[0]) {
        0
    } else {
        1 + first_white_space(s.drop_first())
    }
}

pub open spec fn img_command() -> Seq<char> {
    seq!['/', 'i', 'm', 'g', ' ']
}

/// How a typed line is read: it is trimmed; blank lines are skipped;
/// `/q`, `/quit`, `/exit` quit; `/img <path> <question>` asks about an image
/// (the path ends at the first whitespace, the rest, trimmed, is the
/// question; either missing gives `Usage`); anything else is a question.
pub open spec fn repl_meaning(line: Seq<char>) -> ReplSpec {
    let input = trim(line);
    if input.len() == 0 {
        ReplSpec::Skip
    } else if input == seq!['/', 'q'] || input == seq!['/', 'q', 'u', 'i', 't'] || input == seq![
        '/',
        'e',
        'x',
        'i',
        't',
    ] {
        ReplSpec::Quit
    } else if has_prefix(input, img_command()) {
        let rest = trim(input.skip(5));
        let k = first_white_space(rest);
        let path = trim(rest.take(k));
        let question = if k < rest.len() {
            trim(rest.skip(k + 1))
        } else {
            Seq::empty()
        };
        if path.len() == 0 || question.len() == 0 {
            ReplSpec::Usage
        } else {
            ReplSpec::Ask(question, Some(path))
        }
    } else {
        ReplSpec::Ask(input, None)
    }
}

proof fn lemma_first_white_space(s: Seq<char>)
    ensures
        0 <= first_white_space(s) <= s.len(),
        forall|j: int| 0 <= j < first_white_space(s) ==> !crate::text::is_white_space(#[trigger] s[j]),
        first_white_space(s) < s.len() ==> crate::text::is_white_space(s[first_white_space(s)]),
    decreases s.len(),
{
    if s.len() > 0 && !crate::text::is_white_space(s[0]) {
        lemma_first_white_space(s.drop_first());
        assert forall|j: int| 0 <= j < first_white_space(s) implies !crate::text::is_white_space(
            #[trigger] s[j],
        ) by {
            if j > 0 {
                assert(s[j] == s.drop_first()[j - 1]);
            }
        }
    }
}

fn first_white_space_chars(v: &Vec<char>) -> (r: usize)
    ensures
        r as int == first_white_space(v@),
        r <= v.len(),
{
    proof {
        lemma_first_white_space(v@);
    }
    let mut i: usize = 0;
    while i < v.len() && !crate::text::char_is_white_space(v[i])
        invariant
            0 <= i <= v.len(),
            forall|j: int| 0 <= j < i ==> !crate::text::is_white_space(#[trigger] v@[j]),
            0 <= first_white_space(v@) <= v@.len(),
            forall|j: int|
                0 <= j < first_white_space(v@) ==> !crate::text::is_white_space(#[trigger] v@[j]),
            first_white_space(v@) < v@.len() ==> crate::text::is_white_space(
                v@[first_white_space(v@)],
            ),
        decreases v.len() - i,
    {
        i = i + 1;
    }
    i
}

/// Reads one line typed at the interactive prompt.
pub fn parse_repl_line(line: &str) -> (r: ReplInput)
    ensures
        repl_view(r) == repl_meaning(line@),
{
    let input = trim_chars(&chars_of(line));
    if input.len() == 0 {
        return ReplInput::Skip;
    }
    let q = literal_chars("/q");
    let quit = literal_chars("/quit");
    let exit = literal_chars("/exit");
    let img = literal_chars("/img ");
    proof {
        reveal_strlit("/q");
        reveal_strlit("/quit");
        reveal_strlit("/exit");
        reveal_strlit("/img ");
        assert(q@ =~= seq!['/', 'q']);
        assert(quit@ =~= seq!['/', 'q', 'u', 'i', 't']);
        assert(exit@ =~= seq!['/', 'e', 'x', 'i', 't']);
        assert(img@ =~= img_command());
    }
    if chars_eq(&input, &q) || chars_eq(&input, &quit) || chars_eq(&input, &exit) {
        return ReplInput::Quit;
    }
    if starts_with_chars(&input, &img) {
        let after = copy_range(&input, 5, input.len());
        let rest = trim_chars(&after);
        let k = first_white_space_chars(&rest);
        let path = trim_chars(&copy_range(&rest, 0, k));
        let question = if k < rest.len() {
            trim_chars(&copy_range(&rest, k + 1, rest.len()))
        } else {
            Vec::new()
        };
        assert(rest@.subrange(0, k as int) == rest@.take(k as int));
        assert(input@.subrange(5, input@.len() as int) == input@.skip(5));
        if k < rest.len() {
            assert(rest@.subrange(k + 1, rest@.len() as int) == rest@.skip(k + 1));
        }
        if path.len() == 0 || question.len() == 0 {
            return ReplInput::Usage;
        }
        return ReplInput::Ask {
            text: string_from_chars(question.as_slice()),
            image_path: Some(string_from_chars(path.as_slice())),
        };
    }
    ReplInput::Ask { text: string_from_chars(input.as_slice()), image_path: None }
}

/// The conversation a client keeps with the server: every message sent
/// and every answer received, in order.
pub struct ChatSession {
    pub messages: Vec<Message>,
}

impl ChatSession {
    /// A new conversation, opened by the system prompt unless it is empty.
    pub fn new(system_prompt: String) -> (r: ChatSession)
        ensures
            system_prompt@.len() == 0 ==> r.messages@.len() == 0,
            system_prompt@.len() > 0 ==> r.messages@ == seq![Message::system_spec(system_prompt)],
    {
        let mut messages: Vec<Message> = Vec::new();
        if !system_prompt.as_str().is_empty() {
            messages.push(Message::system(system_prompt));
            assert(messages@ =~= seq![Message::system_spec(system_prompt)]);
        }
        ChatSession { messages }
    }

    /// Records a message sent to the server.
    pub fn push(&mut self, message: Message)
        ensures
            final(self).messages@ == old(self).messages@.push(message),
    {
        self.messages.push(message);
    }

    /// Records the assistant's answer.
    pub fn push_answer(&mut self, content: String)
        ensures
            final(self).messages@ == old(self).messages@.push(Message::assistant_spec(content)),
    {
        self.messages.push(Message::assistant(content));
    }
}

} // verus!
