//! The account a chat server keeps of a reply while its tokens are
//! generated: the text so far, how many pieces arrived, and whether the
//! first token has come (its time is the time to first token).

use vstd::prelude::*;

verus! {

/// The running account of one reply.
pub struct ReplyTally {
    /// The reply's text so far.
    pub text: String,
    /// How many pieces of text were counted.
    pub tokens: usize,
    /// Whether a non-empty piece has arrived.
    pub started: bool,
}

impl ReplyTally {
    /// The account of a reply that has not started.
    pub fn new() -> (r: ReplyTally)
        ensures
            r.text@ == Seq::<char>::empty(),
            r.tokens == 0,
            !r.started,
    {
        ReplyTally { text: String::new(), tokens: 0, started: false }
    }

    /// Takes a piece of a reply that is sent whole at the end: the piece is
    /// appended, and a non-empty one is counted as a generated token (the
    /// empty end-of-stream piece is not); returns whether this piece is the
    /// first token, the first non-empty piece.
    pub fn record(&mut self, data: &str) -> (first: bool)
        requires
            data@.len() > 0 ==> old(self).tokens < usize::MAX,
        ensures
            first == (!old(self).started && data@.len() > 0),
            final(self).started == (old(self).started || data@.len() > 0),
            final(self).text@ == old(self).text@ + data@,
            final(self).tokens == old(self).tokens + (if data@.len() > 0 {
                1int
            } else {
                0int
            }),
    {
        let first = !self.started && !data.is_empty();
        if first {
            self.started = true;
        }
        if !data.is_empty() {
            self.tokens = self.tokens + 1;
        }
        self.text.append(data);
        first
    }

    /// Takes a piece of a streamed reply: the empty end-of-stream piece is
    /// skipped (`None`); any other piece is appended and counted, and
    /// `Some(first)` says whether it is the first token.
    pub fn record_streamed(&mut self, data: &str) -> (r: Option<bool>)
        requires
            data@.len() > 0 ==> old(self).tokens < usize::MAX,
        ensures
            data@.len() == 0 ==> r is None && *final(self) == *old(self),
            data@.len() > 0 ==> {
                &&& r == Some(!old(self).started)
                &&& final(self).started
                &&& final(self).text@ == old(self).text@ + data@
                &&& final(self).tokens == old(self).tokens + 1
            },
    {
        if data.is_empty() {
            return None;
        }
        Some(self.record(data))
    }
}

} // verus!
