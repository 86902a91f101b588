//! Answers that are sent piece by piece.

use crate::bytes::{copy_range, string_from_utf8};
use crate::server::chat::finish_reason;
use vstd::prelude::*;
use vstd::utf8::{decode_utf8, encode_utf8, encode_utf8_decode_utf8, encode_utf8_valid_utf8, valid_utf8};

verus! {

/// The bytes of a text that was not sent yet, where so many bytes were sent.
pub open spec fn unsent(sent: nat, text: Seq<char>) -> Seq<u8> {
    encode_utf8(text).skip(sent as int)
}

/// There is something to send.
pub open spec fn has_more(sent: nat, text: Seq<char>) -> bool {
    encode_utf8(text).len() > sent
}

/// What was sent ends between two characters of the text.
pub open spec fn can_show(sent: nat, text: Seq<char>) -> bool {
    has_more(sent, text) ==> valid_utf8(unsent(sent, text))
}

/// How much of the generated text was sent.
#[derive(Debug)]
pub struct StreamedText {
    sent: usize,
}

impl View for StreamedText {
    type V = nat;

    closed spec fn view(&self) -> nat {
        self.sent as nat
    }
}

impl StreamedText {
    pub fn new() -> (r: Self)
        ensures
            r@ == 0,
    {
        StreamedText { sent: 0 }
    }

    /// Whether what was sent ends between two characters of the text.
    pub fn check(&self, text: &str) -> (r: bool)
        ensures
            r == can_show(self@, text@),
    {
        let bytes = text.as_bytes();
        if bytes.len() <= self.sent {
            return true;
        }
        let rest = copy_range(bytes, self.sent, bytes.len());
        assert(rest@ =~= unsent(self@, text@));
        string_from_utf8(rest).is_ok()
    }

    /// The next piece of the text that was generated so far: what stands in it behind
    /// the bytes that were sent. A text that is no longer gives none.
    pub fn advance(&mut self, text: &str) -> (r: Option<String>)
        requires
            can_show(old(self)@, text@),
        ensures
            match r {
                Some(piece) => {
                    &&& has_more(old(self)@, text@)
                    &&& piece@ == decode_utf8(unsent(old(self)@, text@))
                    &&& final(self)@ == encode_utf8(text@).len()
                },
                None => !has_more(old(self)@, text@) && final(self)@ == old(self)@,
            },
    {
        let bytes = text.as_bytes();
        if bytes.len() <= self.sent {
            return None;
        }
        let rest = copy_range(bytes, self.sent, bytes.len());
        assert(rest@ =~= unsent(self@, text@));
        self.sent = bytes.len();
        string_from_utf8(rest).ok()
    }
}

proof fn lemma_encode_concat(a: Seq<char>, b: Seq<char>)
    ensures
        encode_utf8(a + b) == encode_utf8(a) + encode_utf8(b),
    decreases a.len(),
{
    if a.len() == 0 {
        assert(a + b =~= b);
        assert(encode_utf8(a) + encode_utf8(b) =~= encode_utf8(b));
    } else {
        lemma_encode_concat(a.drop_first(), b);
        assert((a + b).drop_first() =~= a.drop_first() + b);
        assert(encode_utf8(a + b) =~= encode_utf8(a) + encode_utf8(b));
    }
}

proof fn lemma_encode_len(a: Seq<char>)
    ensures
        a.len() > 0 ==> encode_utf8(a).len() > 0,
{
    if a.len() > 0 {
        if encode_utf8(a).len() == 0 {
            assert(encode_utf8(a) =~= encode_utf8(seq![]));
            encode_utf8_decode_utf8(a);
            encode_utf8_decode_utf8(Seq::<char>::empty());
            assert(a =~= Seq::empty());
        }
    }
}

/// A text that grew behind what was sent of it can be shown, and the piece that is
/// sent is what came to it. So the pieces, one behind the other, are the text.
pub proof fn pieces_join(sent_text: Seq<char>, piece: Seq<char>)
    requires
        piece.len() > 0,
    ensures
        can_show(encode_utf8(sent_text).len(), sent_text + piece),
        has_more(encode_utf8(sent_text).len(), sent_text + piece),
        decode_utf8(unsent(encode_utf8(sent_text).len(), sent_text + piece)) == piece,
{
    lemma_encode_concat(sent_text, piece);
    lemma_encode_len(piece);
    assert(unsent(encode_utf8(sent_text).len(), sent_text + piece) =~= encode_utf8(piece));
    encode_utf8_valid_utf8(piece);
    encode_utf8_decode_utf8(piece);
}

/// What is sent of an answer.
#[derive(Debug)]
pub enum ChunkEvent {
    /// Whose the answer is.
    Role,
    Content(String),
    /// Why generation failed.
    Failed(String),
    /// Why the answer ended.
    Finish(String),
    Done,
}

/// What is sent, with its texts as sequences.
pub enum ChunkView {
    Role,
    Content(Seq<char>),
    Failed(Seq<char>),
    Finish(Seq<char>),
    Done,
}

impl View for ChunkEvent {
    type V = ChunkView;

    open spec fn view(&self) -> ChunkView {
        match self {
            ChunkEvent::Role => ChunkView::Role,
            ChunkEvent::Content(s) => ChunkView::Content(s@),
            ChunkEvent::Failed(s) => ChunkView::Failed(s@),
            ChunkEvent::Finish(s) => ChunkView::Finish(s@),
            ChunkEvent::Done => ChunkView::Done,
        }
    }
}

/// The views of a list of events.
pub open spec fn chunk_views(v: Seq<ChunkEvent>) -> Seq<ChunkView> {
    Seq::new(v.len(), |i: int| v[i]@)
}

/// What is sent once generation ended: the error, if there was one, then the reason,
/// then the mark of the end.
pub fn end_of_stream(outcome: &Result<Vec<u32>, String>, prompt_len: usize, max_tokens: usize) -> (r:
    Vec<ChunkEvent>)
    ensures
        chunk_views(r@) == (match outcome {
            Ok(output) => seq![
                ChunkView::Finish(
                    finish_reason(
                        if output@.len() < prompt_len {
                            0
                        } else {
                            output@.len() - prompt_len
                        },
                        max_tokens,
                    ),
                ),
                ChunkView::Done,
            ],
            Err(e) => seq![ChunkView::Failed(e@), ChunkView::Finish("error"@), ChunkView::Done],
        }),
{
    let mut events: Vec<ChunkEvent> = Vec::new();
    match outcome {
        Ok(output) => {
            let generated: usize = if output.len() < prompt_len {
                0
            } else {
                output.len() - prompt_len
            };
            let reason = if generated >= max_tokens {
                "length"
            } else {
                "stop"
            };
            events.push(ChunkEvent::Finish(reason.to_string()));
            events.push(ChunkEvent::Done);
            assert(chunk_views(events@) =~= seq![
                ChunkView::Finish(finish_reason(generated as int, max_tokens)),
                ChunkView::Done,
            ]);
        },
        Err(e) => {
            events.push(ChunkEvent::Failed(e.clone()));
            events.push(ChunkEvent::Finish("error".to_string()));
            events.push(ChunkEvent::Done);
            assert(chunk_views(events@) =~= seq![
                ChunkView::Failed(e@),
                ChunkView::Finish("error"@),
                ChunkView::Done,
            ]);
        },
    }
    events
}

/// Nothing is sent of a text that was sent whole.
pub proof fn whole_texts_are_not_sent_again(text: Seq<char>)
    ensures
        !has_more(encode_utf8(text).len(), text),
        can_show(encode_utf8(text).len(), text),
{
}

} // verus!
