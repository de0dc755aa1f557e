//! Line reassembly: cutting an open-ended text stream, delivered in arbitrary
//! pieces, into its newline-terminated lines.

use crate::text::string_from_chars;
use crate::utf8::{decode_lossy, lossy_text};
use vstd::prelude::*;

verus! {

/// The record delimiter.
pub open spec fn newline() -> char {
    '\n'
}

/// The characters of `s` before its first newline; all of `s` if it has none.
pub open spec fn first_line(s: Seq<char>) -> Seq<char>
    decreases s.len(),
{
    if s.len() == 0 || s[0] == newline() {
        Seq::empty()
    } else {
        seq![s[0]] + first_line(s.drop_first())
    }
}

/// What follows the first newline of `s`.
pub open spec fn after_first_line(s: Seq<char>) -> Seq<char> {
    s.skip(first_line(s).len() as int + 1)
}

/// The complete lines of `s`: for each newline in `s`, the text between it
/// and the newline before it (or the start), without the delimiter.
pub open spec fn complete_lines(s: Seq<char>) -> Seq<Seq<char>>
    decreases s.len(),
    via complete_lines_decreases
{
    if s.contains(newline()) {
        seq![first_line(s)] + complete_lines(after_first_line(s))
    } else {
        Seq::empty()
    }
}

/// What follows the last newline of `s`; all of `s` if it has none.
pub open spec fn remainder(s: Seq<char>) -> Seq<char>
    decreases s.len(),
    via remainder_decreases
{
    if s.contains(newline()) {
        remainder(after_first_line(s))
    } else {
        s
    }
}

#[via_fn]
proof fn complete_lines_decreases(s: Seq<char>) {
    lemma_first_line(s);
}

#[via_fn]
proof fn remainder_decreases(s: Seq<char>) {
    lemma_first_line(s);
}

/// `first_line(s)` is a prefix of `s` without a newline, and is followed by
/// one exactly when `s` holds a newline at all.
pub proof fn lemma_first_line(s: Seq<char>)
    ensures
        first_line(s).len() <= s.len(),
        first_line(s) == s.take(first_line(s).len() as int),
        !first_line(s).contains(newline()),
        s.contains(newline()) <==> first_line(s).len() < s.len(),
        first_line(s).len() < s.len() ==> s[first_line(s).len() as int] == newline(),
    decreases s.len(),
{
    if s.len() == 0 {
        assert(first_line(s) == s.take(0));
    } else if s[0] == newline() {
        assert(s.contains(newline()));
    } else {
        let t = s.drop_first();
        lemma_first_line(t);
        let f = first_line(t);
        if (seq![s[0]] + f).contains(newline()) {
            let i = choose|i: int| 0 <= i < f.len() + 1 && (seq![s[0]] + f)[i] == newline();
            assert(f[i - 1] == newline());
        }
        if s.contains(newline()) {
            let i = choose|i: int| 0 <= i < s.len() && s[i] == newline();
            assert(t[i - 1] == newline());
        }
        if f.len() < t.len() {
            assert(s.contains(newline()));
        }
    }
}

/// Appending a character that is no newline extends the remainder and
/// leaves the complete lines as they were.
pub proof fn lemma_push_other(s: Seq<char>, c: char)
    requires
        c != newline(),
    ensures
        complete_lines(s.push(c)) == complete_lines(s),
        remainder(s.push(c)) == remainder(s).push(c),
    decreases s.len(),
{
    let p = s.push(c);
    lemma_first_line(s);
    lemma_first_line(p);
    if s.contains(newline()) {
        let i = choose|i: int| 0 <= i < s.len() && s[i] == newline();
        assert(p[i] == newline());
        lemma_first_line_push(s, c);
        assert(after_first_line(p) == after_first_line(s).push(c));
        lemma_push_other(after_first_line(s), c);
    } else {
        if p.contains(newline()) {
            let i = choose|i: int| 0 <= i < p.len() && p[i] == newline();
            assert(s[i] == newline());
        }
    }
}

/// Appending a newline completes the remainder as one more line.
pub proof fn lemma_push_newline(s: Seq<char>)
    ensures
        complete_lines(s.push(newline())) == complete_lines(s).push(remainder(s)),
        remainder(s.push(newline())) == Seq::<char>::empty(),
    decreases s.len(),
{
    let c = newline();
    let p = s.push(c);
    lemma_first_line(s);
    lemma_first_line(p);
    assert(p[s.len() as int] == c);
    if s.contains(c) {
        let rest = after_first_line(s);
        lemma_first_line_push(s, c);
        assert(after_first_line(p) == rest.push(c));
        lemma_push_newline(rest);
    } else {
        lemma_first_line_whole_push(s);
        let empty = Seq::<char>::empty();
        assert(after_first_line(p) == empty);
        assert(complete_lines(empty) == Seq::<Seq<char>>::empty());
        assert(remainder(empty) == empty);
    }
}

/// The first line of a newline-free text followed by a newline is that text.
pub proof fn lemma_first_line_whole_push(s: Seq<char>)
    requires
        !s.contains(newline()),
    ensures
        first_line(s.push(newline())) == s,
    decreases s.len(),
{
    let p = s.push(newline());
    if s.len() == 0 {
        assert(p[0] == newline());
    } else {
        assert(s[0] != newline()) by {
            if s[0] == newline() {
                assert(s.contains(newline()));
            }
        }
        let t = s.drop_first();
        if t.contains(newline()) {
            let i = choose|i: int| 0 <= i < t.len() && t[i] == newline();
            assert(s[i + 1] == newline());
        }
        lemma_first_line_whole_push(t);
        assert(p.drop_first() == t.push(newline()));
    }
}

/// Appending to a text that holds a newline does not move its first line.
pub proof fn lemma_first_line_push(s: Seq<char>, c: char)
    requires
        s.contains(newline()),
    ensures
        first_line(s.push(c)) == first_line(s),
    decreases s.len(),
{
    let p = s.push(c);
    if s[0] != newline() {
        let t = s.drop_first();
        let i = choose|i: int| 0 <= i < s.len() && s[i] == newline();
        assert(t[i - 1] == newline());
        lemma_first_line_push(t, c);
        assert(p.drop_first() == t.push(c));
    }
}

/// Reassembly does not depend on where the text was cut: the lines of `a + b`
/// are those of `a`, then those of what `a` left pending followed by `b`.
pub proof fn lemma_lines_concat(a: Seq<char>, b: Seq<char>)
    ensures
        complete_lines(a + b) == complete_lines(a) + complete_lines(remainder(a) + b),
        remainder(a + b) == remainder(remainder(a) + b),
    decreases b.len(),
{
    if b.len() == 0 {
        lemma_remainder_has_no_newline(a);
    } else {
        let c = b.last();
        let b0 = b.drop_last();
        lemma_lines_concat(a, b0);
        assert(a + b == (a + b0).push(c));
        assert(remainder(a) + b == (remainder(a) + b0).push(c));
        if c == newline() {
            lemma_push_newline(a + b0);
            lemma_push_newline(remainder(a) + b0);
        } else {
            lemma_push_other(a + b0, c);
            lemma_push_other(remainder(a) + b0, c);
        }
    }
}

/// What stays pending never holds a newline, so it holds no complete line.
pub proof fn lemma_remainder_has_no_newline(s: Seq<char>)
    ensures
        !remainder(s).contains(newline()),
        remainder(remainder(s)) == remainder(s),
    decreases s.len(),
{
    if s.contains(newline()) {
        lemma_first_line(s);
        lemma_remainder_has_no_newline(after_first_line(s));
    }
}

/// The newline is the delimiter and never part of a line: no complete line
/// holds a newline.
pub proof fn lemma_lines_have_no_newline(s: Seq<char>)
    ensures
        forall|i: int|
            0 <= i < complete_lines(s).len() ==> !(#[trigger] complete_lines(s)[i]).contains(
                newline(),
            ),
    decreases s.len(),
{
    if s.contains(newline()) {
        lemma_first_line(s);
        let rest = after_first_line(s);
        lemma_lines_have_no_newline(rest);
        assert forall|i: int| 0 <= i < complete_lines(s).len() implies !(
        #[trigger] complete_lines(s)[i]).contains(newline()) by {
            if i > 0 {
                assert(complete_lines(s)[i] == complete_lines(rest)[i - 1]);
            }
        }
    }
}

/// The buffer of the line reassembler: the text received since the last
/// newline. It holds at most one partial line.
pub struct LineReassembler {
    pending: Vec<char>,
}

impl LineReassembler {
    #[verifier::type_invariant]
    spec fn no_newline_pending(self) -> bool {
        !self.pending@.contains(newline())
    }

    /// The pending partial line.
    pub closed spec fn pending(&self) -> Seq<char> {
        self.pending@
    }

    /// A reassembler with nothing pending.
    pub fn new() -> (r: Self)
        ensures
            r.pending() == Seq::<char>::empty(),
    {
        LineReassembler { pending: Vec::new() }
    }

    /// Takes the next piece of text and returns the lines that it completes,
    /// oldest first. What follows the last newline stays pending.
    pub fn push_text(&mut self, text: &str) -> (lines: Vec<String>)
        ensures
            lines.deep_view() == complete_lines(old(self).pending() + text@),
            final(self).pending() == remainder(old(self).pending() + text@),
    {
        broadcast use vstd::string::group_string_axioms;

        proof {
            use_type_invariant(&*self);
        }
        let ghost start = self.pending@;
        let mut lines: Vec<String> = Vec::new();
        let mut current: Vec<char> = Vec::new();
        std::mem::swap(&mut current, &mut self.pending);
        proof {
            assert(complete_lines(start) == Seq::<Seq<char>>::empty());
        }
        for c in it: text.chars()
            invariant
                it.seq() == text@,
                !start.contains(newline()),
                current@ == remainder(start + text@.take(it.index())),
                lines.len() == complete_lines(start + text@.take(it.index())).len(),
                forall|i: int|
                    0 <= i < lines.len() ==> (#[trigger] lines[i])@ == complete_lines(
                        start + text@.take(it.index()),
                    )[i],
        {
            proof {
                let seen = start + text@.take(it.index());
                assert(start + text@.take(it.index() + 1) == seen.push(c));
                if c == newline() {
                    lemma_push_newline(seen);
                } else {
                    lemma_push_other(seen, c);
                }
            }
            if c == '\n' {
                let line = string_from_chars(&current);
                lines.push(line);
                current = Vec::new();
            } else {
                current.push(c);
            }
        }
        proof {
            assert(text@.take(text@.len() as int) == text@);
            lemma_remainder_has_no_newline(start + text@);
        }
        self.pending = current;
        lines
    }

    /// Takes the next raw chunk and returns the lines that it completes,
    /// oldest first. The chunk is decoded lossily on its own before it joins
    /// the pending text.
    pub fn feed(&mut self, chunk: &[u8]) -> (lines: Vec<String>)
        ensures
            lines.deep_view() == complete_lines(old(self).pending() + lossy_text(chunk@)),
            final(self).pending() == remainder(old(self).pending() + lossy_text(chunk@)),
    {
        let text = decode_lossy(chunk);
        self.push_text(text.as_str())
    }

    /// Drops the pending partial line.
    pub fn clear(&mut self)
        ensures
            final(self).pending() == Seq::<char>::empty(),
    {
        self.pending = Vec::new();
    }
}

} // verus!
