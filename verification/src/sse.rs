//! Server-sent events (SSE) as the chat API streams them: each event is a
//! `data: <payload>` line ended by a blank line, and the stream closes with
//! `data: [DONE]`. The server side frames payloads; the client side cuts
//! the incoming text into events and picks out the data it carries.

use vstd::prelude::*;

use crate::text::{
    chars_eq, chars_of, copy_range, extend_chars, find_first, has_prefix, occurs_at,
    starts_with_chars, string_from_chars, trim, trim_chars,
};

use crate::client::opt_string_view;

verus! {

pub open spec fn data_prefix() -> Seq<char> {
    seq!['d', 'a', 't', 'a', ':']
}

pub open spec fn blank_line() -> Seq<char> {
    seq!['\n', '\n']
}

pub open spec fn done_marker() -> Seq<char> {
    seq!['[', 'D', 'O', 'N', 'E', ']']
}

/// The SSE frame that carries `payload`: `data: <payload>` and a blank line.
pub open spec fn sse_frame_spec(payload: Seq<char>) -> Seq<char> {
    seq!['d', 'a', 't', 'a', ':', ' '] + payload + blank_line()
}

/// Frames one payload as an SSE event.
pub fn sse_frame(payload: &str) -> (r: String)
    ensures
        r@ == sse_frame_spec(payload@),
{
    let head = "data: ";
    let tail = "\n\n";
    proof {
        reveal_strlit("data: ");
        reveal_strlit("\n\n");
        assert(head@ =~= seq!['d', 'a', 't', 'a', ':', ' ']);
        assert(tail@ =~= blank_line());
    }
    String::from_str(head).concat(payload).concat(tail)
}

/// The frame that ends a stream: `data: [DONE]` and a blank line.
pub fn sse_done() -> (r: String)
    ensures
        r@ == sse_frame_spec(done_marker()),
{
    let done = "[DONE]";
    proof {
        reveal_strlit("[DONE]");
        assert(done@ =~= done_marker());
    }
    sse_frame(done)
}

/// What an event line carries.
#[derive(Debug, Clone)]
pub enum SseEvent {
    /// `data: [DONE]`: the stream is complete.
    Done,
    /// `data: {...}`: a JSON chunk, as text.
    Json(String),
}

pub ghost enum SseItem {
    Done,
    Json(Seq<char>),
}

pub open spec fn event_view(e: SseEvent) -> SseItem {
    match e {
        SseEvent::Done => SseItem::Done,
        SseEvent::Json(s) => SseItem::Json(s@),
    }
}

pub open spec fn events_view(es: Seq<SseEvent>) -> Seq<SseItem> {
    es.map_values(|e: SseEvent| event_view(e))
}

/// The first position of `pat` in `s`, or -1.
#[verifier::opaque]
pub open spec fn first_occurrence(s: Seq<char>, pat: Seq<char>) -> int {
    if exists|i: int| occurs_at(s, pat, i) {
        choose|i: int| occurs_at(s, pat, i) && forall|j: int| 0 <= j < i ==> !occurs_at(s, pat, j)
    } else {
        -1
    }
}

/// What one line of an event carries: lines not starting with `data:` carry
/// nothing; otherwise the rest of the line, trimmed, is `[DONE]`, a JSON
/// object (it starts with `{`), or nothing.
pub open spec fn line_item(line: Seq<char>) -> Seq<SseItem> {
    if has_prefix(line, data_prefix()) {
        data_items(trim(line.skip(5)))
    } else {
        Seq::empty()
    }
}

/// What the (trimmed) data of a line carries.
pub open spec fn data_items(d: Seq<char>) -> Seq<SseItem> {
    if d == done_marker() {
        seq![SseItem::Done]
    } else if d.len() > 0 && d[0] == '{' {
        seq![SseItem::Json(d)]
    } else {
        Seq::empty()
    }
}

/// What the lines of an event carry, in order (lines end at `\n`; a `\r`
/// before it is removed by the trim).
#[verifier::opaque]
pub open spec fn event_items(ev: Seq<char>) -> Seq<SseItem>
    decreases ev.len(),
{
    let i = first_occurrence(ev, seq!['\n']);
    if 0 <= i < ev.len() {
        line_item(ev.take(i)) + event_items(ev.skip(i + 1))
    } else {
        line_item(ev)
    }
}

/// The complete events in `s` (each ends at a blank line) and the
/// incomplete rest.
#[verifier::opaque]
pub open spec fn split_events(s: Seq<char>) -> (Seq<Seq<char>>, Seq<char>)
    decreases s.len(),
{
    let i = first_occurrence(s, blank_line());
    if 0 <= i && i + 2 <= s.len() {
        let (evs, rest) = split_events(s.skip(i + 2));
        (seq![s.take(i)] + evs, rest)
    } else {
        (Seq::empty(), s)
    }
}

/// What a list of events carries, in order.
#[verifier::opaque]
pub open spec fn events_items(evs: Seq<Seq<char>>) -> Seq<SseItem>
    decreases evs.len(),
{
    if evs.len() == 0 {
        Seq::empty()
    } else {
        event_items(evs[0]) + events_items(evs.drop_first())
    }
}

proof fn lemma_first_occurrence(s: Seq<char>, pat: Seq<char>, i: int)
    requires
        occurs_at(s, pat, i),
        forall|j: int| 0 <= j < i ==> !occurs_at(s, pat, j),
    ensures
        first_occurrence(s, pat) == i,
{
    reveal(first_occurrence);
    let c = choose|c: int| occurs_at(s, pat, c) && forall|j: int| 0 <= j < c ==> !occurs_at(s, pat, j);
    assert(c == i) by {
        if c < i {
            assert(!occurs_at(s, pat, c));
        }
        if i < c {
            assert(!occurs_at(s, pat, i as int));
        }
    }
}

proof fn lemma_no_occurrence(s: Seq<char>, pat: Seq<char>)
    requires
        forall|j: int| !occurs_at(s, pat, j),
    ensures
        first_occurrence(s, pat) == -1,
{
    reveal(first_occurrence);
}

proof fn lemma_split_step(s: Seq<char>, i: int)
    requires
        occurs_at(s, blank_line(), i),
        forall|j: int| 0 <= j < i ==> !occurs_at(s, blank_line(), j),
    ensures
        split_events(s).1 == split_events(s.skip(i + 2)).1,
        events_items(split_events(s).0) == event_items(s.take(i)) + events_items(
            split_events(s.skip(i + 2)).0,
        ),
{
    lemma_first_occurrence(s, blank_line(), i);
    reveal(split_events);
    reveal(events_items);
    let (evs, rest) = split_events(s.skip(i + 2));
    assert(split_events(s) == (seq![s.take(i)] + evs, rest));
    assert((seq![s.take(i)] + evs).drop_first() =~= evs);
    assert((seq![s.take(i)] + evs)[0] == s.take(i));
}

proof fn lemma_split_end(s: Seq<char>)
    requires
        forall|j: int| !occurs_at(s, blank_line(), j),
    ensures
        split_events(s) == (Seq::<Seq<char>>::empty(), s),
        events_items(Seq::<Seq<char>>::empty()) == Seq::<SseItem>::empty(),
{
    lemma_no_occurrence(s, blank_line());
    reveal(split_events);
    reveal(events_items);
}

proof fn lemma_event_items_step(ev: Seq<char>, i: usize)
    requires
        occurs_at(ev, seq!['\n'], i as int),
        forall|j: int| 0 <= j < i ==> !occurs_at(ev, seq!['\n'], j),
    ensures
        event_items(ev) == line_item(ev.take(i as int)) + event_items(ev.skip(i + 1)),
{
    lemma_first_occurrence(ev, seq!['\n'], i as int);
    reveal(event_items);
}

proof fn lemma_event_items_end(ev: Seq<char>)
    requires
        forall|j: int| !occurs_at(ev, seq!['\n'], j),
    ensures
        event_items(ev) == line_item(ev),
{
    lemma_no_occurrence(ev, seq!['\n']);
    reveal(event_items);
}

fn line_item_exec(line: &Vec<char>, out: &mut Vec<SseEvent>)
    ensures
        events_view(final(out)@) == events_view(old(out)@) + line_item(line@),
{
    let prefix = chars_of("data:");
    let done = chars_of("[DONE]");
    proof {
        reveal_strlit("data:");
        reveal_strlit("[DONE]");
        assert(prefix@ =~= data_prefix());
        assert(done@ =~= done_marker());
    }
    if !starts_with_chars(line, &prefix) {
        assert(events_view(out@) =~= events_view(old(out)@) + line_item(line@));
        return;
    }
    let rest = copy_range(line, 5, line.len());
    assert(rest@ == line@.skip(5));
    let d = trim_chars(&rest);
    if chars_eq(&d, &done) {
        out.push(SseEvent::Done);
    } else if d.len() > 0 && d[0] == '{' {
        out.push(SseEvent::Json(string_from_chars(d.as_slice())));
    }
    assert(events_view(out@) =~= events_view(old(out)@) + line_item(line@));
}

fn event_items_exec(ev: &Vec<char>, out: &mut Vec<SseEvent>)
    ensures
        events_view(final(out)@) == events_view(old(out)@) + event_items(ev@),
{
    let nl = chars_of("\n");
    proof {
        reveal_strlit("\n");
        assert(nl@ =~= seq!['\n']);
    }
    let mut cur = copy_range(ev, 0, ev.len());
    assert(cur@ == ev@.subrange(0, ev@.len() as int));
    assert(cur@ == ev@);
    let ghost start = events_view(out@);
    loop
        invariant
            events_view(old(out)@) + event_items(ev@) == events_view(out@) + event_items(cur@),
            nl@ == seq!['\n'],
        decreases cur.len(),
    {
        match find_first(&cur, &nl) {
            Some(i) => {
                proof {
                    lemma_event_items_step(cur@, i);
                }
                let line = copy_range(&cur, 0, i);
                let next = copy_range(&cur, i + 1, cur.len());
                assert(line@ == cur@.take(i as int));
                assert(next@ == cur@.skip(i + 1));
                let ghost before = events_view(out@);
                line_item_exec(&line, out);
                assert(events_view(out@) + event_items(next@) =~= before + event_items(cur@));
                cur = next;
            },
            None => {
                proof {
                    lemma_event_items_end(cur@);
                }
                line_item_exec(&cur, out);
                assert(events_view(out@) =~= events_view(old(out)@) + event_items(ev@));
                return;
            },
        }
    }
}

/// Cuts a stream of text into SSE events as it arrives. The decoder keeps
/// the text after the last complete event until more arrives.
pub struct SseDecoder {
    buf: Vec<char>,
}

impl SseDecoder {
    /// The text received but not yet part of a complete event.
    pub closed spec fn pending(&self) -> Seq<char> {
        self.buf@
    }

    /// A decoder that has received nothing.
    pub fn new() -> (r: SseDecoder)
        ensures
            r.pending() == Seq::<char>::empty(),
    {
        SseDecoder { buf: Vec::new() }
    }

    /// Takes in the next piece of the stream and returns what the events it
    /// completes carry, in order; the rest waits for the next piece.
    pub fn push(&mut self, chunk: &str) -> (r: Vec<SseEvent>)
        ensures
            ({
                let (evs, rest) = split_events(old(self).pending() + chunk@);
                &&& events_view(r@) == events_items(evs)
                &&& final(self).pending() == rest
            }),
    {
        let ghost total = self.buf@ + chunk@;
        let c = chars_of(chunk);
        extend_chars(&mut self.buf, &c);
        let sep = chars_of("\n\n");
        proof {
            reveal_strlit("\n\n");
            assert(sep@ =~= blank_line());
        }
        let mut out: Vec<SseEvent> = Vec::new();
        loop
            invariant
                sep@ == blank_line(),
                total == old(self).buf@ + chunk@,
                split_events(total).1 == split_events(self.buf@).1,
                events_items(split_events(total).0) == events_view(out@) + events_items(
                    split_events(self.buf@).0,
                ),
            decreases self.buf.len(),
        {
            match find_first(&self.buf, &sep) {
                Some(i) => {
                    proof {
                        lemma_split_step(self.buf@, i as int);
                    }
                    let ev = copy_range(&self.buf, 0, i);
                    let next = copy_range(&self.buf, i + 2, self.buf.len());
                    assert(ev@ == self.buf@.take(i as int));
                    assert(next@ == self.buf@.skip(i + 2));
                    let ghost before = events_view(out@);
                    event_items_exec(&ev, &mut out);
                    assert(events_view(out@) + events_items(split_events(next@).0) =~= before
                        + events_items(split_events(self.buf@).0));
                    self.buf = next;
                },
                None => {
                    proof {
                        lemma_split_end(self.buf@);
                        assert(events_view(out@) + events_items(Seq::<Seq<char>>::empty())
                            =~= events_view(out@));
                    }
                    return out;
                },
            }
        }
    }
}

} // verus!

verus! {

/// The first occurrence of a blank line in `a`, given that there is one.
proof fn first_index(a: Seq<char>) -> (i: int)
    requires
        exists|i: int| occurs_at(a, blank_line(), i),
    ensures
        occurs_at(a, blank_line(), i),
        forall|j: int| 0 <= j < i ==> !occurs_at(a, blank_line(), j),
    decreases a.len(),
{
    let k = choose|k: int| occurs_at(a, blank_line(), k);
    least_occurrence(a, k)
}

proof fn least_occurrence(a: Seq<char>, k: int) -> (i: int)
    requires
        occurs_at(a, blank_line(), k),
    ensures
        occurs_at(a, blank_line(), i),
        forall|j: int| 0 <= j < i ==> !occurs_at(a, blank_line(), j),
    decreases k,
{
    if exists|j: int| 0 <= j < k && occurs_at(a, blank_line(), j) {
        let j = choose|j: int| 0 <= j < k && occurs_at(a, blank_line(), j);
        least_occurrence(a, j)
    } else {
        k
    }
}

proof fn lemma_occurs_at_prefix(a: Seq<char>, b: Seq<char>, pat: Seq<char>, j: int)
    requires
        0 <= j && j + pat.len() <= a.len(),
    ensures
        occurs_at(a + b, pat, j) == occurs_at(a, pat, j),
{
    assert((a + b).subrange(j, j + pat.len()) =~= a.subrange(j, j + pat.len()));
}

/// Law: cutting the stream differently does not change what is decoded.
/// Decoding `a` and then `b` gives the same events, and leaves the same
/// pending text, as decoding `a + b` at once.
pub proof fn lemma_split_events_chunking(a: Seq<char>, b: Seq<char>)
    ensures
        ({
            let (evs_a, rest_a) = split_events(a);
            let (evs_b, rest_b) = split_events(rest_a + b);
            let (evs, rest) = split_events(a + b);
            &&& events_items(evs) == events_items(evs_a) + events_items(evs_b)
            &&& rest == rest_b
        }),
    decreases a.len(),
{
    if exists|i: int| occurs_at(a, blank_line(), i) {
        let i = first_index(a);
        assert(a.len() >= 2);
        assert forall|j: int| 0 <= j < i implies !occurs_at(a + b, blank_line(), j) by {
            lemma_occurs_at_prefix(a, b, blank_line(), j);
        }
        lemma_occurs_at_prefix(a, b, blank_line(), i);
        lemma_split_step(a + b, i);
        lemma_split_step(a, i);
        assert((a + b).take(i) == a.take(i));
        assert((a + b).skip(i + 2) == a.skip(i + 2) + b);
        lemma_split_events_chunking(a.skip(i + 2), b);
        let (evs_a, rest_a) = split_events(a);
        let (evs_b, rest_b) = split_events(rest_a + b);
        let (evs, rest) = split_events(a + b);
        assert(events_items(evs) =~= events_items(evs_a) + events_items(evs_b));
    } else {
        lemma_split_end(a);
        let (evs_a, rest_a) = split_events(a);
        assert(events_items(evs_a) == Seq::<SseItem>::empty());
        assert(rest_a == a);
        let (evs, rest) = split_events(a + b);
        assert(events_items(evs) =~= Seq::<SseItem>::empty() + events_items(evs));
    }
}


/// Law: a frame made by [`sse_frame`] is decoded back into what it carries.
/// For a payload without line breaks, the decoder finds exactly one event,
/// leaves nothing pending, and reads the payload (trimmed) from it; in
/// particular [`sse_done`] decodes to `Done` and a JSON payload to itself.
pub proof fn lemma_frame_round_trip(p: Seq<char>)
    requires
        forall|j: int| 0 <= j < p.len() ==> p[j] != '\n',
    ensures
        split_events(sse_frame_spec(p)).1 == Seq::<char>::empty(),
        events_items(split_events(sse_frame_spec(p)).0) == data_items(trim(p)),
{
    let f = sse_frame_spec(p);
    let n: int = 6 + p.len() as int;
    let head = seq!['d', 'a', 't', 'a', ':', ' '];
    assert(f.len() == n + 2);
    assert(f[n] == '\n' && f[n + 1] == '\n');
    assert(f.subrange(n, n + 2) =~= blank_line());
    assert forall|j: int| 0 <= j < n implies !occurs_at(f, blank_line(), j) by {
        if occurs_at(f, blank_line(), j) {
            assert(f.subrange(j, j + 2)[0] == '\n');
            assert(f[j] == '\n');
            if j >= 6 {
                assert(f[j] == p[j - 6]);
            }
        }
    }
    lemma_split_step(f, n);
    assert(f.skip(n + 2) =~= Seq::<char>::empty());
    assert forall|j: int| !occurs_at(Seq::<char>::empty(), blank_line(), j) by {}
    lemma_split_end(Seq::<char>::empty());
    let line = f.take(n);
    assert(line =~= head + p);
    assert forall|j: int| !occurs_at(line, seq!['\n'], j) by {
        if occurs_at(line, seq!['\n'], j) {
            assert(line.subrange(j, j + 1)[0] == '\n');
            assert(line[j] == '\n');
            if j >= 6 {
                assert(line[j] == p[j - 6]);
            }
        }
    }
    lemma_event_items_end(line);
    assert(line.subrange(0, 5) =~= data_prefix());
    let rest = line.skip(5);
    assert(rest =~= seq![' '] + p);
    assert(rest.drop_first() =~= p);
    assert(crate::text::trim_start(rest) == crate::text::trim_start(p));
    assert(event_items(line) + Seq::<SseItem>::empty() =~= event_items(line));
}

/// What the client reads out of one JSON chunk of the stream: the error
/// the server reports (when `error` is a string), and the piece of answer
/// text it carries (`choices[0].delta.content`, when a string).
#[derive(Debug, Clone)]
pub struct StreamChunk {
    pub error: Option<String>,
    pub content: Option<String>,
}

/// Takes in one chunk of a streamed answer: a reported error ends the
/// stream with that error, leaving the answer as it was; otherwise the
/// chunk's text, if any, is appended to the answer.
pub fn apply_stream_chunk(out: &mut String, chunk: &StreamChunk) -> (r: Result<(), String>)
    ensures
        chunk.error matches Some(e) ==> r matches Err(m) && m@ == e@ && final(out)@ == old(out)@,
        chunk.error is None ==> r is Ok && final(out)@ == old(out)@ + match chunk.content {
            Some(c) => c@,
            None => Seq::<char>::empty(),
        },
{
    match &chunk.error {
        Some(e) => return Err(e.clone()),
        None => {},
    }
    match &chunk.content {
        Some(c) => {
            if !c.as_str().is_empty() {
                out.append(c.as_str());
            } else {
                assert(old(out)@ + c@ =~= old(out)@);
            }
        },
        None => {
            assert(old(out)@ + Seq::<char>::empty() =~= old(out)@);
        },
    }
    Ok(())
}

/// What a JSON chunk of the stream holds, as `serde_json::from_str` reads
/// it into a `serde_json::Value`: `None` when the text is not JSON;
/// otherwise the `error` member when it is a string, and
/// `choices[0].delta.content` when it is a string.
pub uninterp spec fn stream_chunk_fields(data: Seq<char>) -> Option<(Option<Seq<char>>, Option<Seq<char>>)>;

/// Parses a JSON chunk (`serde_json::from_str` into a `Value`) and picks
/// its `error` string and its `choices[0].delta.content` string. A parse
/// error comes back as its text, prefixed with `bad SSE json: `.
#[verifier::external_body]
pub fn parse_stream_chunk(data: &str) -> (r: Result<StreamChunk, String>)
    ensures
        match r {
            Ok(c) => stream_chunk_fields(data@) == Some(
                (opt_string_view(c.error), opt_string_view(c.content)),
            ),
            Err(_) => stream_chunk_fields(data@) is None,
        },
{
    match serde_json::from_str::<serde_json::Value>(data) {
        Ok(v) => Ok(
            StreamChunk {
                error: v.get("error").and_then(|e| e.as_str()).map(|e| e.to_string()),
                content: v["choices"][0]["delta"]["content"].as_str().map(|c| c.to_string()),
            },
        ),
        Err(e) => Err(format!("bad SSE json: {e}")),
    }
}

/// Takes in the data of one JSON event of a streamed answer: text that is
/// not JSON, or a chunk reporting an error, ends the stream with an error
/// and leaves the answer as it was; otherwise the chunk's text, if any, is
/// appended to the answer.
pub fn apply_stream_data(out: &mut String, data: &str) -> (r: Result<(), String>)
    ensures
        match stream_chunk_fields(data@) {
            None => r is Err && final(out)@ == old(out)@,
            Some((Some(e), _)) => r matches Err(m) && m@ == e && final(out)@ == old(out)@,
            Some((None, c)) => r is Ok && final(out)@ == old(out)@ + match c {
                Some(t) => t,
                None => Seq::<char>::empty(),
            },
        },
{
    let chunk = match parse_stream_chunk(data) {
        Ok(c) => c,
        Err(e) => return Err(e),
    };
    apply_stream_chunk(out, &chunk)
}

} // verus!
