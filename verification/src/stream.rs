//! The streaming decoder: from the raw chunks of one response body to the
//! fragments of the reply, through line reassembly, record decoding and
//! turn accumulation.

use crate::lines::{
    complete_lines, lemma_lines_concat, lemma_push_newline, lemma_remainder_has_no_newline, newline,
    remainder, LineReassembler,
};
use crate::record::{
    decode_line, lemma_records_concat, record_of_line, records_of_lines, Mode, RecordView,
};
use crate::seqs::{joined, lemma_joined_one};
use crate::text::blank;
use crate::turn::{
    fragments, lemma_absorb_concat, lemma_finished_turn_is_closed, lemma_shown_is_accumulated,
    lemma_turn_completes, TurnAccumulator, TurnView,
};
use crate::utf8::{decode_lossy, lemma_lossy_text_of_valid_chunks, lossy_text, lossy_texts};
use vstd::prelude::*;
use vstd::utf8::valid_utf8;

verus! {

/// The mathematical value of a `StreamDecoder`.
pub struct DecoderView {
    /// The shape of the records that are expected.
    pub mode: Mode,
    /// The text received since the last newline.
    pub pending: Seq<char>,
    /// The reply as gathered so far.
    pub turn: TurnView,
}

impl DecoderView {
    /// The decoder at the start of a response.
    pub open spec fn start(mode: Mode) -> DecoderView {
        DecoderView { mode, pending: Seq::empty(), turn: TurnView::start() }
    }

    /// What holds of every decoder: the pending text holds no newline, and
    /// nothing is pending once the turn has finished.
    pub open spec fn wf(self) -> bool {
        &&& !self.pending.contains(newline())
        &&& self.turn.done ==> self.pending.len() == 0
    }

    /// The records that the next piece of text completes.
    pub open spec fn records_in(self, text: Seq<char>) -> Seq<RecordView> {
        records_of_lines(self.mode, complete_lines(self.pending + text))
    }

    /// The decoder after the next piece of text. A finished turn takes
    /// nothing more; the turn that finishes drops what is pending.
    pub open spec fn after_text(self, text: Seq<char>) -> DecoderView {
        if self.turn.done {
            self
        } else {
            let turn = self.turn.absorb_all(self.records_in(text));
            DecoderView {
                mode: self.mode,
                pending: if turn.done {
                    Seq::empty()
                } else {
                    remainder(self.pending + text)
                },
                turn,
            }
        }
    }

    /// The fragments that the next piece of text makes visible, in order.
    pub open spec fn shown_by_text(self, text: Seq<char>) -> Seq<Seq<char>> {
        if self.turn.done {
            Seq::empty()
        } else {
            self.turn.shown_all(self.records_in(text))
        }
    }

    /// The decoder after the next chunk of bytes, which is decoded lossily
    /// on its own.
    pub open spec fn after_chunk(self, chunk: Seq<u8>) -> DecoderView {
        self.after_text(lossy_text(chunk))
    }

    /// The fragments that the next chunk of bytes makes visible, in order.
    pub open spec fn shown_by_chunk(self, chunk: Seq<u8>) -> Seq<Seq<char>> {
        self.shown_by_text(lossy_text(chunk))
    }

    /// The decoder after a run of pieces of text, taken in order.
    pub open spec fn after_texts(self, texts: Seq<Seq<char>>) -> DecoderView
        decreases texts.len(),
    {
        if texts.len() == 0 {
            self
        } else {
            self.after_texts(texts.drop_last()).after_text(texts.last())
        }
    }

    /// The fragments that a run of pieces of text makes visible, in order.
    pub open spec fn shown_by_texts(self, texts: Seq<Seq<char>>) -> Seq<Seq<char>>
        decreases texts.len(),
    {
        if texts.len() == 0 {
            Seq::empty()
        } else {
            self.shown_by_texts(texts.drop_last()) + self.after_texts(
                texts.drop_last(),
            ).shown_by_text(texts.last())
        }
    }

    /// The decoder after a run of chunks, taken in order.
    pub open spec fn after_chunks(self, chunks: Seq<Seq<u8>>) -> DecoderView {
        self.after_texts(lossy_texts(chunks))
    }

    /// The fragments that a run of chunks makes visible, in order.
    pub open spec fn shown_by_chunks(self, chunks: Seq<Seq<u8>>) -> Seq<Seq<char>> {
        self.shown_by_texts(lossy_texts(chunks))
    }
}

/// Decodes the raw chunks of one response body into the fragments of the reply.
pub struct StreamDecoder {
    mode: Mode,
    lines: LineReassembler,
    turn: TurnAccumulator,
}

impl View for StreamDecoder {
    type V = DecoderView;

    closed spec fn view(&self) -> DecoderView {
        DecoderView { mode: self.mode, pending: self.lines.pending(), turn: self.turn@ }
    }
}

impl StreamDecoder {
    #[verifier::type_invariant]
    spec fn well_formed(self) -> bool {
        self@.wf()
    }

    /// A decoder at the start of a response in `mode`.
    pub fn new(mode: Mode) -> (r: Self)
        ensures
            r@ == DecoderView::start(mode),
            r@.wf(),
    {
        StreamDecoder { mode, lines: LineReassembler::new(), turn: TurnAccumulator::new() }
    }

    /// The mode that the decoder was made for.
    pub fn mode(&self) -> (r: Mode)
        ensures
            r == self@.mode,
    {
        self.mode
    }

    /// Whether the record that ends the turn has been decoded.
    pub fn is_done(&self) -> (r: bool)
        ensures
            r == self@.turn.done,
            self@.wf(),
    {
        proof {
            use_type_invariant(self);
        }
        self.turn.is_done()
    }

    /// The reply as gathered so far.
    pub fn text(&self) -> (r: &str)
        ensures
            r@ == self@.turn.partial_text,
    {
        self.turn.partial_text()
    }

    /// Takes the next piece of decoded text and returns the fragments to
    /// show, in order. Each complete line that is neither blank nor
    /// malformed is decoded and handed to the turn, up to and including the
    /// record that ends the turn; nothing after that record is looked at.
    pub fn feed_text(&mut self, text: &str) -> (shown: Vec<String>)
        ensures
            final(self)@ == old(self)@.after_text(text@),
            shown.deep_view() == old(self)@.shown_by_text(text@),
            final(self)@.wf(),
    {
        proof {
            use_type_invariant(&*self);
        }
        let mut shown: Vec<String> = Vec::new();
        assert(shown.deep_view() == Seq::<Seq<char>>::empty());
        if self.turn.is_done() {
            return shown;
        }
        let ghost before = self@;
        let ghost all = before.pending + text@;
        let mode = self.mode;
        let mut lines = LineReassembler::new();
        let mut turn = TurnAccumulator::new();
        std::mem::swap(&mut lines, &mut self.lines);
        std::mem::swap(&mut turn, &mut self.turn);
        let complete = lines.push_text(text);
        let ghost texts = complete.deep_view();
        proof {
            lemma_remainder_has_no_newline(all);
            assert(texts.take(0) == Seq::<Seq<char>>::empty());
        }
        let mut i: usize = 0;
        while i < complete.len() && !turn.is_done()
            invariant
                i <= complete.len(),
                texts == complete.deep_view(),
                turn@ == before.turn.absorb_all(records_of_lines(mode, texts.take(i as int))),
                shown.deep_view() == before.turn.shown_all(
                    records_of_lines(mode, texts.take(i as int)),
                ),
            decreases complete.len() - i,
        {
            let ghost seen = records_of_lines(mode, texts.take(i as int));
            let ghost shown_before = shown.deep_view();
            proof {
                let upto = texts.take(i + 1);
                assert(upto.drop_last() == texts.take(i as int));
                assert(upto.last() == complete@[i as int]@);
            }
            if !blank(complete[i].as_str()) {
                match decode_line(mode, complete[i].as_str()) {
                    Some(record) => {
                        assert(seen.push(record@).drop_last() == seen);
                        match turn.accept(&record) {
                            Some(fragment) => {
                                shown.push(fragment);
                                assert(shown.deep_view() == shown_before.push(fragment@));
                            },
                            None => {},
                        }
                    },
                    None => {},
                }
            }
            i = i + 1;
        }
        proof {
            let seen = records_of_lines(mode, texts.take(i as int));
            let rest = texts.skip(i as int);
            assert(texts.take(i as int) + rest == texts);
            lemma_records_concat(mode, texts.take(i as int), rest);
            lemma_absorb_concat(before.turn, seen, records_of_lines(mode, rest));
            if turn@.done {
                lemma_finished_turn_is_closed(turn@, records_of_lines(mode, rest));
                assert(shown.deep_view() + Seq::<Seq<char>>::empty() == shown.deep_view());
            } else {
                assert(texts.take(i as int) == texts);
            }
        }
        if turn.is_done() {
            lines.clear();
        }
        self.lines = lines;
        self.turn = turn;
        shown
    }

    /// Takes the next chunk of the response body and returns the fragments
    /// to show, in order. The chunk is decoded lossily on its own, so a
    /// character cut by the chunk boundary becomes replacement characters.
    pub fn feed(&mut self, chunk: &[u8]) -> (shown: Vec<String>)
        ensures
            final(self)@ == old(self)@.after_chunk(chunk@),
            shown.deep_view() == old(self)@.shown_by_chunk(chunk@),
            final(self)@.wf(),
    {
        let text = decode_lossy(chunk);
        self.feed_text(text.as_str())
    }
}

/// Feeding a decoder two pieces of text, one after the other, is feeding it
/// their concatenation: the same state, the same fragments in the same order.
pub proof fn lemma_after_text_concat(s: DecoderView, a: Seq<char>, b: Seq<char>)
    ensures
        s.after_text(a).after_text(b) == s.after_text(a + b),
        s.shown_by_text(a) + s.after_text(a).shown_by_text(b) == s.shown_by_text(a + b),
{
    let none = Seq::<Seq<char>>::empty();
    if s.turn.done {
        assert(none + none == none);
    } else {
        let received = s.pending + a;
        assert(s.pending + (a + b) == received + b);
        lemma_lines_concat(received, b);
        let first = complete_lines(received);
        let second = complete_lines(remainder(received) + b);
        lemma_records_concat(s.mode, first, second);
        let ra = records_of_lines(s.mode, first);
        let rb = records_of_lines(s.mode, second);
        lemma_absorb_concat(s.turn, ra, rb);
        let mid = s.turn.absorb_all(ra);
        if mid.done {
            lemma_finished_turn_is_closed(mid, rb);
        }
    }
}

/// An empty piece of text changes nothing and shows nothing.
pub proof fn lemma_after_empty_text(s: DecoderView)
    requires
        s.wf(),
    ensures
        s.after_text(Seq::empty()) == s,
        s.shown_by_text(Seq::empty()) == Seq::<Seq<char>>::empty(),
{
    assert(s.pending + Seq::<char>::empty() == s.pending);
}

/// Every decoder that a well-formed decoder can become is well-formed.
pub proof fn lemma_after_text_wf(s: DecoderView, text: Seq<char>)
    requires
        s.wf(),
    ensures
        s.after_text(text).wf(),
{
    lemma_remainder_has_no_newline(s.pending + text);
}

/// Where the text was cut does not show: feeding a decoder a run of pieces
/// gives the state and the fragments that feeding it the joined text gives.
pub proof fn lemma_after_texts_is_after_joined(s: DecoderView, texts: Seq<Seq<char>>)
    requires
        s.wf(),
    ensures
        s.after_texts(texts) == s.after_text(joined(texts)),
        s.shown_by_texts(texts) == s.shown_by_text(joined(texts)),
    decreases texts.len(),
{
    if texts.len() == 0 {
        lemma_after_empty_text(s);
    } else {
        lemma_after_texts_is_after_joined(s, texts.drop_last());
        lemma_after_text_concat(s, joined(texts.drop_last()), texts.last());
    }
}

/// Chunk boundaries do not show. Take any way of cutting a byte stream into
/// chunks such that decoding the chunks one by one yields the text of the
/// whole stream (as it does where no chunk boundary cuts a character). Then
/// the decoder that is fed the chunks in order ends in the state, and shows
/// the fragments, of the decoder that is fed the whole stream as one chunk;
/// and the complete lines decode to the same records in the same order.
pub proof fn lemma_chunking_is_invisible(s: DecoderView, chunks: Seq<Seq<u8>>)
    requires
        s.wf(),
        joined(lossy_texts(chunks)) == lossy_text(joined(chunks)),
    ensures
        s.after_chunks(chunks) == s.after_chunk(joined(chunks)),
        s.after_chunks(chunks) == s.after_chunks(seq![joined(chunks)]),
        s.shown_by_chunks(chunks) == s.shown_by_chunk(joined(chunks)),
        s.shown_by_chunks(chunks) == s.shown_by_chunks(seq![joined(chunks)]),
        records_of_lines(s.mode, lines_of_texts(s.pending, lossy_texts(chunks)))
            == records_of_lines(
            s.mode,
            lines_of_texts(s.pending, lossy_texts(seq![joined(chunks)])),
        ),
{
    let whole = seq![joined(chunks)];
    let texts = lossy_texts(chunks);
    let text = lossy_text(joined(chunks));
    lemma_after_texts_is_after_joined(s, texts);
    assert(lossy_texts(whole) == seq![text]);
    lemma_joined_one(text);
    lemma_after_texts_is_after_joined(s, seq![text]);
    lemma_lines_of_texts(s.pending, texts);
    lemma_lines_of_texts(s.pending, seq![text]);
}

/// Chunk boundaries between characters do not show. Take any way of
/// cutting a byte stream into chunks that are each well-formed UTF-8, that
/// is, any cutting of a well-formed stream at character boundaries. Then
/// the decoder that is fed the chunks in order ends in the state, and shows
/// the fragments, of the decoder that is fed the whole stream as one chunk;
/// and the complete lines decode to the same records in the same order.
pub proof fn lemma_chunking_at_character_boundaries(s: DecoderView, chunks: Seq<Seq<u8>>)
    requires
        s.wf(),
        forall|i: int| 0 <= i < chunks.len() ==> valid_utf8(#[trigger] chunks[i]),
    ensures
        s.after_chunks(chunks) == s.after_chunks(seq![joined(chunks)]),
        s.shown_by_chunks(chunks) == s.shown_by_chunks(seq![joined(chunks)]),
        records_of_lines(s.mode, lines_of_texts(s.pending, lossy_texts(chunks)))
            == records_of_lines(
            s.mode,
            lines_of_texts(s.pending, lossy_texts(seq![joined(chunks)])),
        ),
{
    lemma_lossy_text_of_valid_chunks(chunks);
    lemma_chunking_is_invisible(s, chunks);
}

/// Two runs over the same stream agree: decoders that start a response in
/// the same mode and are fed the same chunks end in the same state, with the
/// same accumulated text, and have shown the same fragments.
pub proof fn lemma_runs_agree(first: DecoderView, second: DecoderView, chunks: Seq<Seq<u8>>)
    requires
        first == DecoderView::start(first.mode),
        second == DecoderView::start(second.mode),
        first.mode == second.mode,
    ensures
        first.after_chunks(chunks) == second.after_chunks(chunks),
        first.after_chunks(chunks).turn.partial_text == second.after_chunks(
            chunks,
        ).turn.partial_text,
        first.shown_by_chunks(chunks) == second.shown_by_chunks(chunks),
{
}

/// A malformed line between two good ones is skipped and nothing else is
/// lost: a stream of three lines of which the first and the last decode and
/// the middle one does not yields exactly the two records, in order.
pub proof fn lemma_malformed_line_is_skipped(
    mode: Mode,
    first: Seq<char>,
    bad: Seq<char>,
    last: Seq<char>,
)
    requires
        !first.contains(newline()),
        !bad.contains(newline()),
        !last.contains(newline()),
        record_of_line(mode, first) is Some,
        record_of_line(mode, bad) is None,
        record_of_line(mode, last) is Some,
    ensures
        records_of_lines(
            mode,
            complete_lines(first.push(newline()) + bad.push(newline()) + last.push(newline())),
        ) == seq![record_of_line(mode, first)->0, record_of_line(mode, last)->0],
{
    let nl = newline();
    let none = Seq::<char>::empty();
    let a = first.push(nl);
    let b = bad.push(nl);
    let c = last.push(nl);
    lemma_line_then_newline(first);
    lemma_line_then_newline(bad);
    lemma_line_then_newline(last);
    lemma_lines_concat(a, b);
    lemma_lines_concat(a + b, c);
    assert(none + c == c);
    let lines = complete_lines(a + b + c);
    assert(lines == seq![first, bad, last]);
    reveal_with_fuel(records_of_lines, 4);
}

/// The record that ends the turn completes the reply. Where the complete
/// lines of a response decode to some records that do not end the turn,
/// then one that does, then any others, a decoder that is fed the response
/// from its start holds the fragments up to and including the final
/// record's, joined in order, has shown exactly those, and is done.
pub proof fn lemma_stream_completes(
    mode: Mode,
    text: Seq<char>,
    before: Seq<RecordView>,
    terminal: RecordView,
    after: Seq<RecordView>,
)
    requires
        records_of_lines(mode, complete_lines(text)) == before.push(terminal) + after,
        forall|i: int| 0 <= i < before.len() ==> !(#[trigger] before[i]).is_final(),
        terminal.is_final(),
    ensures
        DecoderView::start(mode).after_text(text).turn == (TurnView {
            partial_text: joined(fragments(before)) + terminal.fragment(),
            done: true,
        }),
        DecoderView::start(mode).shown_by_text(text) == fragments(before.push(terminal)),
{
    lemma_turn_completes(before, terminal, after);
}

/// What is shown is what is gathered: after any run of pieces of text, the
/// reply holds what it held before followed by the shown fragments, each
/// once, in the order in which they were shown.
pub proof fn lemma_shown_is_gathered(s: DecoderView, texts: Seq<Seq<char>>)
    requires
        s.wf(),
    ensures
        s.after_texts(texts).turn.partial_text == s.turn.partial_text + joined(
            s.shown_by_texts(texts),
        ),
{
    lemma_after_texts_is_after_joined(s, texts);
    if s.turn.done {
        assert(s.turn.partial_text + Seq::<char>::empty() == s.turn.partial_text);
    } else {
        lemma_shown_is_accumulated(s.turn, s.records_in(joined(texts)));
    }
}

/// The lines that a reassembler with `pending` text completes when it is
/// handed `texts` piece by piece.
pub open spec fn lines_of_texts(pending: Seq<char>, texts: Seq<Seq<char>>) -> Seq<Seq<char>>
    decreases texts.len(),
{
    if texts.len() == 0 {
        Seq::empty()
    } else {
        let before = texts.drop_last();
        lines_of_texts(pending, before) + complete_lines(
            pending_after_texts(pending, before) + texts.last(),
        )
    }
}

/// What a reassembler with `pending` text holds after it was handed `texts`
/// piece by piece.
pub open spec fn pending_after_texts(pending: Seq<char>, texts: Seq<Seq<char>>) -> Seq<char>
    decreases texts.len(),
{
    if texts.len() == 0 {
        pending
    } else {
        remainder(pending_after_texts(pending, texts.drop_last()) + texts.last())
    }
}

/// Reassembling piece by piece gives the lines of the joined text, provided
/// that what was pending at the start holds no complete line.
pub proof fn lemma_lines_of_texts(pending: Seq<char>, texts: Seq<Seq<char>>)
    requires
        !pending.contains(newline()),
    ensures
        lines_of_texts(pending, texts) == complete_lines(pending + joined(texts)),
        pending_after_texts(pending, texts) == remainder(pending + joined(texts)),
    decreases texts.len(),
{
    if texts.len() == 0 {
        assert(pending + Seq::<char>::empty() == pending);
    } else {
        let before = texts.drop_last();
        lemma_lines_of_texts(pending, before);
        lemma_lines_concat(pending + joined(before), texts.last());
        assert(pending + joined(texts) == (pending + joined(before)) + texts.last());
    }
}

/// A text without a newline, followed by one, is exactly one complete line.
pub proof fn lemma_line_then_newline(line: Seq<char>)
    requires
        !line.contains(newline()),
    ensures
        complete_lines(line.push(newline())) == seq![line],
        remainder(line.push(newline())) == Seq::<char>::empty(),
{
    lemma_push_newline(line);
}

} // verus!
