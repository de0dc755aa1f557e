//! Response records: what one line of the response stream decodes to.

use crate::json::{
    find_member, flag_member, json_members, member, parse_members, read_flag_member,
    read_text_member, text_member,
};
use crate::text::{blank, is_blank};
use vstd::prelude::*;

verus! {

/// The shape of the exchange, chosen once per session.
#[derive(Clone, Copy, Debug, PartialEq, Eq, Structural)]
pub enum Mode {
    /// One prompt, one generated answer, no history.
    OneShot,
    /// A conversation whose whole history is sent with every request.
    Chat,
}

/// One decoded line of the response stream.
#[derive(Debug, PartialEq, Eq)]
pub enum ResponseRecord {
    /// A fragment of a one-shot generation.
    Generation { text: String, is_final: bool },
    /// A fragment of a chat reply. The sender's role is optional on the wire.
    Chat { role: Option<String>, content: String, is_final: bool },
}

/// The mathematical value of a `ResponseRecord`.
pub enum RecordView {
    Generation { text: Seq<char>, is_final: bool },
    Chat { role: Option<Seq<char>>, content: Seq<char>, is_final: bool },
}

impl View for ResponseRecord {
    type V = RecordView;

    open spec fn view(&self) -> RecordView {
        match self {
            ResponseRecord::Generation { text, is_final } => RecordView::Generation {
                text: text@,
                is_final: *is_final,
            },
            ResponseRecord::Chat { role, content, is_final } => RecordView::Chat {
                role: role.deep_view(),
                content: content@,
                is_final: *is_final,
            },
        }
    }
}

impl DeepView for ResponseRecord {
    type V = RecordView;

    open spec fn deep_view(&self) -> RecordView {
        self@
    }
}

impl RecordView {
    /// The piece of generated text that the record carries.
    pub open spec fn fragment(self) -> Seq<char> {
        match self {
            RecordView::Generation { text, .. } => text,
            RecordView::Chat { content, .. } => content,
        }
    }

    /// Whether the record ends the turn.
    pub open spec fn is_final(self) -> bool {
        match self {
            RecordView::Generation { is_final, .. } => is_final,
            RecordView::Chat { is_final, .. } => is_final,
        }
    }
}

/// A generation record exists when both of its fields were read.
pub open spec fn generation_record(text: Option<Seq<char>>, done: Option<bool>) -> Option<
    RecordView,
> {
    match (text, done) {
        (Some(text), Some(is_final)) => Some(RecordView::Generation { text, is_final }),
        _ => None,
    }
}

/// A chat record exists when the content and the final flag were read, and
/// the role, where the message has one, was read as a string. The outer
/// option of `role` is `None` for a role that is present and is no string.
pub open spec fn chat_record(
    role: Option<Option<Seq<char>>>,
    content: Option<Seq<char>>,
    done: Option<bool>,
) -> Option<RecordView> {
    match (role, content, done) {
        (Some(role), Some(content), Some(is_final)) => Some(
            RecordView::Chat { role, content, is_final },
        ),
        _ => None,
    }
}

/// The role of a message object: absent, a string, or ill-typed (`None`).
pub open spec fn role_member(members: Seq<(Seq<char>, Seq<char>)>) -> Option<Option<Seq<char>>> {
    match member(members, "role"@) {
        None => Some(None),
        Some(_) => match text_member(members, "role"@) {
            Some(role) => Some(Some(role)),
            None => None,
        },
    }
}

/// The record that the members of a JSON object spell out in `mode`.
///
/// One-shot: `response` is a string and `done` a boolean. Chat: `message`
/// is an object whose `content` is a string and whose `role`, if there is
/// one, is a string, and `done` is a boolean. Other members are ignored.
pub open spec fn record_of_members(mode: Mode, members: Seq<(Seq<char>, Seq<char>)>) -> Option<
    RecordView,
> {
    match mode {
        Mode::OneShot => generation_record(
            text_member(members, "response"@),
            flag_member(members, "done"@),
        ),
        Mode::Chat => match member(members, "message"@) {
            None => None,
            Some(raw) => match json_members(raw) {
                None => None,
                Some(inner) => chat_record(
                    role_member(inner),
                    text_member(inner, "content"@),
                    flag_member(members, "done"@),
                ),
            },
        },
    }
}

/// The record that `line` decodes to in `mode`; `None` where the line is
/// not a JSON object of the expected shape.
pub open spec fn decoded(mode: Mode, line: Seq<char>) -> Option<RecordView> {
    match json_members(line) {
        None => None,
        Some(members) => record_of_members(mode, members),
    }
}

/// What a complete line of the stream contributes: nothing if it is blank
/// or does not decode, else its record.
pub open spec fn record_of_line(mode: Mode, line: Seq<char>) -> Option<RecordView> {
    if is_blank(line) {
        None
    } else {
        decoded(mode, line)
    }
}

/// The records of a sequence of lines, in order, skipping the lines that
/// contribute none.
pub open spec fn records_of_lines(mode: Mode, lines: Seq<Seq<char>>) -> Seq<RecordView>
    decreases lines.len(),
{
    if lines.len() == 0 {
        Seq::empty()
    } else {
        let before = records_of_lines(mode, lines.drop_last());
        match record_of_line(mode, lines.last()) {
            Some(record) => before.push(record),
            None => before,
        }
    }
}

/// The records of two runs of lines, one after the other, are the records
/// of the first followed by those of the second.
pub proof fn lemma_records_concat(mode: Mode, a: Seq<Seq<char>>, b: Seq<Seq<char>>)
    ensures
        records_of_lines(mode, a + b) == records_of_lines(mode, a) + records_of_lines(mode, b),
    decreases b.len(),
{
    if b.len() == 0 {
        assert(records_of_lines(mode, a) + Seq::<RecordView>::empty() == records_of_lines(mode, a));
    } else {
        lemma_records_concat(mode, a, b.drop_last());
        assert((a + b).drop_last() == a + b.drop_last());
        let ra = records_of_lines(mode, a);
        let rb = records_of_lines(mode, b.drop_last());
        match record_of_line(mode, b.last()) {
            Some(record) => {
                assert((ra + rb).push(record) == ra + rb.push(record));
            },
            None => {},
        }
    }
}

impl ResponseRecord {
    /// Builds a generation record from its two fields as they were read.
    pub fn generation(text: Option<String>, done: Option<bool>) -> (r: Option<ResponseRecord>)
        ensures
            r.deep_view() == generation_record(text.deep_view(), done),
    {
        match (text, done) {
            (Some(text), Some(is_final)) => Some(ResponseRecord::Generation { text, is_final }),
            _ => None,
        }
    }

    /// Builds a chat record from its fields as they were read.
    pub fn chat(role: Option<Option<String>>, content: Option<String>, done: Option<bool>) -> (r:
        Option<ResponseRecord>)
        ensures
            r.deep_view() == chat_record(role.deep_view(), content.deep_view(), done),
    {
        match (role, content, done) {
            (Some(role), Some(content), Some(is_final)) => Some(
                ResponseRecord::Chat { role, content, is_final },
            ),
            _ => None,
        }
    }

    /// The piece of generated text that the record carries.
    pub fn fragment(&self) -> (r: &str)
        ensures
            r@ == self@.fragment(),
    {
        match self {
            ResponseRecord::Generation { text, .. } => text.as_str(),
            ResponseRecord::Chat { content, .. } => content.as_str(),
        }
    }

    /// Whether the record ends the turn.
    pub fn is_final(&self) -> (r: bool)
        ensures
            r == self@.is_final(),
    {
        match self {
            ResponseRecord::Generation { is_final, .. } => *is_final,
            ResponseRecord::Chat { is_final, .. } => *is_final,
        }
    }
}

fn read_role(members: &Vec<(String, String)>) -> (r: Option<Option<String>>)
    ensures
        r.deep_view() == role_member(members.deep_view()),
{
    match find_member(members, "role") {
        None => Some(None),
        Some(_) => match read_text_member(members, "role") {
            Some(role) => Some(Some(role)),
            None => None,
        },
    }
}

/// Reads a record in `mode` from the members of a JSON object.
pub fn record_from_members(mode: Mode, members: &Vec<(String, String)>) -> (r: Option<
    ResponseRecord,
>)
    ensures
        r.deep_view() == record_of_members(mode, members.deep_view()),
{
    let done = read_flag_member(members, "done");
    match mode {
        Mode::OneShot => ResponseRecord::generation(read_text_member(members, "response"), done),
        Mode::Chat => match find_member(members, "message") {
            None => None,
            Some(raw) => match parse_members(raw.as_str()) {
                None => None,
                Some(inner) => ResponseRecord::chat(
                    read_role(&inner),
                    read_text_member(&inner, "content"),
                    done,
                ),
            },
        },
    }
}

/// Decodes one line of the response stream. A line that is not a JSON
/// object of the shape that `mode` expects gives `None`; it is never an error.
pub fn decode_line(mode: Mode, line: &str) -> (r: Option<ResponseRecord>)
    ensures
        r.deep_view() == decoded(mode, line@),
{
    match parse_members(line) {
        None => None,
        Some(members) => record_from_members(mode, &members),
    }
}

/// Decodes the lines that are neither blank nor malformed, in order.
pub fn decode_lines(mode: Mode, lines: &Vec<String>) -> (records: Vec<ResponseRecord>)
    ensures
        records.deep_view() == records_of_lines(mode, lines.deep_view()),
{
    let ghost all = lines.deep_view();
    let mut records: Vec<ResponseRecord> = Vec::new();
    let mut i: usize = 0;
    while i < lines.len()
        invariant
            i <= lines.len(),
            all == lines.deep_view(),
            records.deep_view() == records_of_lines(mode, all.take(i as int)),
        decreases lines.len() - i,
    {
        let ghost before = records.deep_view();
        proof {
            let upto = all.take(i + 1);
            assert(upto.drop_last() == all.take(i as int));
        }
        if !blank(lines[i].as_str()) {
            match decode_line(mode, lines[i].as_str()) {
                Some(record) => {
                    records.push(record);
                    assert(records.deep_view() == before.push(record@));
                },
                None => {},
            }
        }
        i = i + 1;
    }
    assert(all.take(lines.len() as int) == all);
    records
}

} // verus!
