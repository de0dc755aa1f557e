//! The turn accumulator: the text of one model reply, gathered fragment by
//! fragment until the record that ends the turn.

use crate::record::{RecordView, ResponseRecord};
use crate::seqs::joined;
use vstd::prelude::*;
use vstd::string::StringExecFns;

verus! {

/// The mathematical value of a `TurnAccumulator`.
pub struct TurnView {
    /// The fragments received so far, joined in arrival order.
    pub partial_text: Seq<char>,
    /// Whether the record that ends the turn has been received.
    pub done: bool,
}

impl TurnView {
    /// The state at the start of a turn.
    pub open spec fn start() -> TurnView {
        TurnView { partial_text: Seq::empty(), done: false }
    }

    /// The state after one more record. A finished turn takes nothing more.
    pub open spec fn absorb(self, record: RecordView) -> TurnView {
        if self.done {
            self
        } else {
            TurnView {
                partial_text: self.partial_text + record.fragment(),
                done: record.is_final(),
            }
        }
    }

    /// The state after a run of records, taken in order.
    pub open spec fn absorb_all(self, records: Seq<RecordView>) -> TurnView
        decreases records.len(),
    {
        if records.len() == 0 {
            self
        } else {
            self.absorb_all(records.drop_last()).absorb(records.last())
        }
    }

    /// What one record makes visible to the user: its fragment, unless the
    /// turn had already finished.
    pub open spec fn shown(self, record: RecordView) -> Option<Seq<char>> {
        if self.done {
            None
        } else {
            Some(record.fragment())
        }
    }

    /// What a run of records makes visible, fragment by fragment, in order.
    pub open spec fn shown_all(self, records: Seq<RecordView>) -> Seq<Seq<char>>
        decreases records.len(),
    {
        if records.len() == 0 {
            Seq::empty()
        } else {
            let before = self.shown_all(records.drop_last());
            match self.absorb_all(records.drop_last()).shown(records.last()) {
                Some(fragment) => before.push(fragment),
                None => before,
            }
        }
    }
}

/// The fragments of `records`, in order.
pub open spec fn fragments(records: Seq<RecordView>) -> Seq<Seq<char>> {
    records.map_values(|r: RecordView| r.fragment())
}

/// A finished turn takes nothing more and shows nothing more.
pub proof fn lemma_finished_turn_is_closed(turn: TurnView, records: Seq<RecordView>)
    requires
        turn.done,
    ensures
        turn.absorb_all(records) == turn,
        turn.shown_all(records) == Seq::<Seq<char>>::empty(),
    decreases records.len(),
{
    if records.len() > 0 {
        lemma_finished_turn_is_closed(turn, records.drop_last());
    }
}

/// Taking two runs of records, one after the other, is taking their
/// concatenation; what is shown is shown in the same order.
pub proof fn lemma_absorb_concat(turn: TurnView, a: Seq<RecordView>, b: Seq<RecordView>)
    ensures
        turn.absorb_all(a + b) == turn.absorb_all(a).absorb_all(b),
        turn.shown_all(a + b) == turn.shown_all(a) + turn.absorb_all(a).shown_all(b),
    decreases b.len(),
{
    if b.len() == 0 {
        assert(turn.shown_all(a) + Seq::<Seq<char>>::empty() == turn.shown_all(a));
    } else {
        lemma_absorb_concat(turn, a, b.drop_last());
        assert((a + b).drop_last() == a + b.drop_last());
        let mid = turn.absorb_all(a);
        let sa = turn.shown_all(a);
        let sb = mid.shown_all(b.drop_last());
        match mid.absorb_all(b.drop_last()).shown(b.last()) {
            Some(fragment) => {
                assert((sa + sb).push(fragment) == sa + sb.push(fragment));
            },
            None => {},
        }
    }
}

/// What was shown is what was accumulated: the text of the turn is the text
/// it started with followed by the shown fragments, each once, in arrival order.
pub proof fn lemma_shown_is_accumulated(turn: TurnView, records: Seq<RecordView>)
    ensures
        turn.absorb_all(records).partial_text == turn.partial_text + joined(
            turn.shown_all(records),
        ),
    decreases records.len(),
{
    if records.len() == 0 {
        assert(turn.partial_text + Seq::<char>::empty() == turn.partial_text);
    } else {
        let before = records.drop_last();
        lemma_shown_is_accumulated(turn, before);
        let mid = turn.absorb_all(before);
        let shown = turn.shown_all(before);
        match mid.shown(records.last()) {
            Some(fragment) => {
                assert(shown.push(fragment).drop_last() == shown);
            },
            None => {},
        }
    }
}

/// A turn that has not finished has taken every record so far: until a
/// record that ends the turn arrives, the text is the join of all fragments.
pub proof fn lemma_open_turn_takes_all(records: Seq<RecordView>)
    requires
        forall|i: int| 0 <= i < records.len() ==> !(#[trigger] records[i]).is_final(),
    ensures
        TurnView::start().absorb_all(records) == (TurnView {
            partial_text: joined(fragments(records)),
            done: false,
        }),
    decreases records.len(),
{
    if records.len() > 0 {
        let before = records.drop_last();
        assert forall|i: int| 0 <= i < before.len() implies !(#[trigger] before[i]).is_final() by {
            assert(before[i] == records[i]);
        }
        lemma_open_turn_takes_all(before);
        assert(fragments(records).drop_last() == fragments(before));
    }
}

/// The record that ends the turn completes it: the text is the join of the
/// fragments up to and including that record's, and whatever follows the
/// record changes nothing.
pub proof fn lemma_turn_completes(
    before: Seq<RecordView>,
    terminal: RecordView,
    after: Seq<RecordView>,
)
    requires
        forall|i: int| 0 <= i < before.len() ==> !(#[trigger] before[i]).is_final(),
        terminal.is_final(),
    ensures
        TurnView::start().absorb_all(before.push(terminal) + after) == (TurnView {
            partial_text: joined(fragments(before)) + terminal.fragment(),
            done: true,
        }),
        TurnView::start().shown_all(before.push(terminal) + after) == fragments(
            before.push(terminal),
        ),
{
    let start = TurnView::start();
    let upto = before.push(terminal);
    lemma_open_turn_takes_all(before);
    assert(upto.drop_last() == before);
    let closed = start.absorb_all(upto);
    lemma_absorb_concat(start, upto, after);
    lemma_finished_turn_is_closed(closed, after);
    lemma_open_turn_shows_all(before);
}

/// A turn that has not finished has shown every fragment so far.
pub proof fn lemma_open_turn_shows_all(records: Seq<RecordView>)
    requires
        forall|i: int| 0 <= i < records.len() ==> !(#[trigger] records[i]).is_final(),
    ensures
        TurnView::start().shown_all(records) == fragments(records),
    decreases records.len(),
{
    if records.len() == 0 {
        assert(fragments(records) == Seq::<Seq<char>>::empty());
    } else {
        let before = records.drop_last();
        assert forall|i: int| 0 <= i < before.len() implies !(#[trigger] before[i]).is_final() by {
            assert(before[i] == records[i]);
        }
        lemma_open_turn_shows_all(before);
        lemma_open_turn_takes_all(before);
    }
}

/// The text of one model reply as it builds up.
#[derive(Debug)]
pub struct TurnAccumulator {
    partial_text: String,
    done: bool,
}

impl View for TurnAccumulator {
    type V = TurnView;

    closed spec fn view(&self) -> TurnView {
        TurnView { partial_text: self.partial_text@, done: self.done }
    }
}

impl TurnAccumulator {
    /// An accumulator at the start of a turn: no text, not done.
    pub fn new() -> (r: Self)
        ensures
            r@ == TurnView::start(),
    {
        TurnAccumulator { partial_text: String::new(), done: false }
    }

    /// Whether the record that ends the turn has been received.
    pub fn is_done(&self) -> (r: bool)
        ensures
            r == self@.done,
    {
        self.done
    }

    /// The text gathered so far.
    pub fn partial_text(&self) -> (r: &str)
        ensures
            r@ == self@.partial_text,
    {
        self.partial_text.as_str()
    }

    /// Takes the next record. Returns the fragment to show, which is also
    /// appended to the text, or `None` if the turn had already finished.
    /// The turn is finished once a record with the final flag was taken.
    pub fn accept(&mut self, record: &ResponseRecord) -> (shown: Option<String>)
        ensures
            final(self)@ == old(self)@.absorb(record@),
            shown.deep_view() == old(self)@.shown(record@),
    {
        if self.done {
            return None;
        }
        let fragment = record.fragment();
        self.partial_text.append(fragment);
        self.done = record.is_final();
        Some(String::from_str(fragment))
    }

    /// Starts the next turn: drops the text and the done flag.
    pub fn reset(&mut self)
        ensures
            final(self)@ == TurnView::start(),
    {
        self.partial_text = String::new();
        self.done = false;
    }
}

} // verus!
