//! Reading JSON text: the members of an object, a string, a boolean.
//! The parsing itself is serde_json's; what is read from its results is
//! decided here.

use crate::text::{chars_of, same_text};
use serde_json::value::RawValue;
use std::collections::BTreeMap;
use vstd::prelude::*;

verus! {

/// The members of the JSON object that `text` holds, each as its key and the
/// JSON text of its value; `None` where `text` is not one JSON object. A key
/// that the object repeats is listed once, with the value of its last
/// occurrence.
pub uninterp spec fn json_members(text: Seq<char>) -> Option<Seq<(Seq<char>, Seq<char>)>>;

/// The string that `text` holds as a JSON string literal; `None` where
/// `text` is not one.
pub uninterp spec fn json_text(text: Seq<char>) -> Option<Seq<char>>;

/// Whether `text` is one well-formed JSON value.
pub uninterp spec fn json_well_formed(text: Seq<char>) -> bool;

/// Calls `serde_json::from_str` for a map from keys to raw values and hands
/// the entries out as pairs of strings. The result is a function of the
/// text alone; a parse error becomes `None`. The map keeps one entry per
/// key, so a repeated key is no parse error.
#[verifier::external_body]
pub(crate) fn parse_members(text: &str) -> (r: Option<Vec<(String, String)>>)
    ensures
        r.deep_view() == json_members(text@),
{
    match serde_json::from_str::<BTreeMap<String, Box<RawValue>>>(text) {
        Ok(map) => Some(map.into_iter().map(|(k, v)| (k, v.get().to_owned())).collect()),
        Err(_) => None,
    }
}

/// Calls `serde_json::from_str` for a `String`. The result is a function of
/// the text alone; a parse error becomes `None`.
#[verifier::external_body]
pub(crate) fn parse_text(text: &str) -> (r: Option<String>)
    ensures
        r.deep_view() == json_text(text@),
{
    serde_json::from_str::<String>(text).ok()
}

/// The four characters that JSON allows between its tokens.
pub open spec fn is_json_space(c: char) -> bool {
    c == ' ' || c == '\t' || c == '\n' || c == '\r'
}

/// `s` without the JSON whitespace at its start.
pub open spec fn without_leading_space(s: Seq<char>) -> Seq<char>
    decreases s.len(),
{
    if s.len() > 0 && is_json_space(s[0]) {
        without_leading_space(s.drop_first())
    } else {
        s
    }
}

/// `s` without the JSON whitespace at its end.
pub open spec fn without_trailing_space(s: Seq<char>) -> Seq<char>
    decreases s.len(),
{
    if s.len() > 0 && is_json_space(s.last()) {
        without_trailing_space(s.drop_last())
    } else {
        s
    }
}

/// The boolean that `text` holds as a JSON literal: `true` or `false`,
/// with nothing but JSON whitespace around it; `None` for any other text.
pub open spec fn json_flag(text: Seq<char>) -> Option<bool> {
    let literal = without_trailing_space(without_leading_space(text));
    if literal == "true"@ {
        Some(true)
    } else if literal == "false"@ {
        Some(false)
    } else {
        None
    }
}

/// Whether the first character of `text` that is not JSON whitespace opens
/// an array.
pub open spec fn begins_array(text: Seq<char>) -> bool {
    let rest = without_leading_space(text);
    rest.len() > 0 && rest[0] == '['
}

/// Whether the first character of `text` that is not JSON whitespace opens
/// an array.
pub fn opens_array(text: &str) -> (r: bool)
    ensures
        r == begins_array(text@),
{
    let chars = chars_of(text);
    let mut i: usize = 0;
    assert(chars@.skip(0) == chars@);
    while i < chars.len()
        invariant
            i <= chars.len(),
            chars@ == text@,
            without_leading_space(text@) == without_leading_space(chars@.skip(i as int)),
        decreases chars.len() - i,
    {
        let c = chars[i];
        assert(chars@.skip(i as int)[0] == c);
        if c == ' ' || c == '\t' || c == '\n' || c == '\r' {
            assert(chars@.skip(i as int).drop_first() == chars@.skip(i + 1));
            i = i + 1;
        } else {
            return c == '[';
        }
    }
    false
}

/// Calls `serde_json::from_str` for a `bool`, which accepts exactly the two
/// literals, with JSON whitespace before and after; a parse error becomes `None`.
#[verifier::external_body]
pub(crate) fn parse_flag(text: &str) -> (r: Option<bool>)
    ensures
        r == json_flag(text@),
{
    serde_json::from_str::<bool>(text).ok()
}

/// Calls `serde_json::from_str` for a `serde_json::Value` and reports
/// whether it succeeded. The result is a function of the text alone.
#[verifier::external_body]
pub(crate) fn parse_succeeds(text: &str) -> (r: bool)
    ensures
        r == json_well_formed(text@),
{
    serde_json::from_str::<serde_json::Value>(text).is_ok()
}

/// The value of the first member of `members` whose key is `key`.
pub open spec fn member(members: Seq<(Seq<char>, Seq<char>)>, key: Seq<char>) -> Option<Seq<char>>
    decreases members.len(),
{
    if members.len() == 0 {
        None
    } else if members[0].0 == key {
        Some(members[0].1)
    } else {
        member(members.drop_first(), key)
    }
}

/// Looks `key` up among the members of an object.
pub fn find_member<'a>(members: &'a Vec<(String, String)>, key: &str) -> (r: Option<&'a String>)
    ensures
        r.deep_view() == member(members.deep_view(), key@),
{
    let ghost all = members.deep_view();
    assert(all.skip(0) == all);
    let mut i: usize = 0;
    while i < members.len()
        invariant
            i <= members.len(),
            all == members.deep_view(),
            member(all, key@) == member(all.skip(i as int), key@),
        decreases members.len() - i,
    {
        proof {
            let rest = all.skip(i as int);
            assert(rest.drop_first() == all.skip(i + 1));
        }
        if same_text(members[i].0.as_str(), key) {
            return Some(&members[i].1);
        }
        i = i + 1;
    }
    None
}

/// The string held by member `key`, if the object has that member and it is a string.
pub open spec fn text_member(members: Seq<(Seq<char>, Seq<char>)>, key: Seq<char>) -> Option<
    Seq<char>,
> {
    match member(members, key) {
        Some(raw) => json_text(raw),
        None => None,
    }
}

/// The boolean held by member `key`, if the object has that member and it is a boolean.
pub open spec fn flag_member(members: Seq<(Seq<char>, Seq<char>)>, key: Seq<char>) -> Option<
    bool,
> {
    match member(members, key) {
        Some(raw) => json_flag(raw),
        None => None,
    }
}

/// Reads member `key` as a string.
pub fn read_text_member(members: &Vec<(String, String)>, key: &str) -> (r: Option<String>)
    ensures
        r.deep_view() == text_member(members.deep_view(), key@),
{
    match find_member(members, key) {
        Some(raw) => parse_text(raw.as_str()),
        None => None,
    }
}

/// Reads member `key` as a boolean.
pub fn read_flag_member(members: &Vec<(String, String)>, key: &str) -> (r: Option<bool>)
    ensures
        r == flag_member(members.deep_view(), key@),
{
    match find_member(members, key) {
        Some(raw) => parse_flag(raw.as_str()),
        None => None,
    }
}

} // verus!
