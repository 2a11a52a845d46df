//! Tags are kept in the store as one JSON array of strings per quote.

use vstd::prelude::*;

verus! {

#[verifier::external_type_specification]
#[verifier::external_body]
pub struct ExJsonError(serde_json::Error);

/// A lowercase hexadecimal digit, for `d` below 16.
pub open spec fn hex_digit(d: u32) -> char {
    if d < 10 {
        (0x30 + d) as char
    } else {
        (0x61 + d - 10) as char
    }
}

/// How a character stands inside a JSON string as serde_json writes it:
/// `"` and `\` after a backslash; backspace, tab, line feed, form feed and
/// carriage return as `\b`, `\t`, `\n`, `\f`, `\r`; other characters
/// below U+0020 as `\u00` and two lowercase hex digits; any other character
/// as itself.
pub open spec fn json_escape(c: char) -> Seq<char> {
    let x = c as u32;
    if c == '"' {
        seq!['\\', '"']
    } else if c == '\\' {
        seq!['\\', '\\']
    } else if x == 0x08 {
        seq!['\\', 'b']
    } else if x == 0x09 {
        seq!['\\', 't']
    } else if x == 0x0a {
        seq!['\\', 'n']
    } else if x == 0x0c {
        seq!['\\', 'f']
    } else if x == 0x0d {
        seq!['\\', 'r']
    } else if x < 0x20 {
        seq!['\\', 'u', '0', '0', hex_digit(x / 16), hex_digit(x % 16)]
    } else {
        seq![c]
    }
}

/// The characters of `s`, each escaped.
pub open spec fn json_escaped(s: Seq<char>) -> Seq<char>
    decreases s.len(),
{
    if s.len() == 0 {
        Seq::empty()
    } else {
        json_escaped(s.drop_last()) + json_escape(s.last())
    }
}

/// A JSON string literal: the escaped text between double quotes.
pub open spec fn json_string(s: Seq<char>) -> Seq<char> {
    seq!['"'] + json_escaped(s) + seq!['"']
}

/// The string literals of `items`, separated by commas.
pub open spec fn json_items(items: Seq<Seq<char>>) -> Seq<char>
    decreases items.len(),
{
    if items.len() == 0 {
        Seq::empty()
    } else if items.len() == 1 {
        json_string(items[0])
    } else {
        json_items(items.drop_last()) + seq![','] + json_string(items.last())
    }
}

/// The JSON text that `serde_json::to_string` writes for a list of strings:
/// the compact array, with no white space.
pub open spec fn json_of_strings(items: Seq<Seq<char>>) -> Seq<char> {
    seq!['['] + json_items(items) + seq![']']
}

/// What `serde_json::from_str::<Vec<String>>` reads from `text`: the list of
/// strings, or `None` when the text is not a JSON array of strings.
pub uninterp spec fn strings_of_json(text: Seq<char>) -> Option<Seq<Seq<char>>>;

/// The tags that a stored JSON text denotes; text that is not a JSON array
/// of strings denotes no tags.
pub open spec fn stored_tags(text: Seq<char>) -> Seq<Seq<char>> {
    match strings_of_json(text) {
        Some(t) => t,
        None => Seq::empty(),
    }
}

/// `serde_json::to_string` on a list of strings. It succeeds (the text is
/// written to memory, and a string always serializes); the text is the
/// compact JSON array `json_of_strings(items)` (serde_json's
/// `CompactFormatter` and its escape table), and `serde_json::from_str`
/// reads the same list back from it.
#[verifier::external_body]
fn encode_strings(items: &Vec<String>) -> (res: Result<String, serde_json::Error>)
    ensures
        res is Ok,
        res matches Ok(s) ==> {
            &&& s@ == json_of_strings(items.deep_view())
            &&& strings_of_json(s@) == Some(items.deep_view())
        },
{
    serde_json::to_string(items)
}

/// `serde_json::from_str::<Vec<String>>`; the error is dropped.
#[verifier::external_body]
fn decode_strings(text: &str) -> (res: Option<Vec<String>>)
    ensures
        match res {
            Some(v) => strings_of_json(text@) == Some(v.deep_view()),
            None => strings_of_json(text@) is None,
        },
{
    serde_json::from_str::<Vec<String>>(text).ok()
}

/// The JSON text under which `tags` are stored.
pub fn tags_to_json(tags: &Vec<String>) -> (res: String)
    ensures
        res@ == json_of_strings(tags.deep_view()),
        stored_tags(res@) == tags.deep_view(),
{
    match encode_strings(tags) {
        Ok(s) => s,
        Err(_) => {
            assert(false);
            String::new()
        },
    }
}

/// The tags that stored JSON text denotes (none when it does not parse).
pub fn tags_from_json(text: &str) -> (res: Vec<String>)
    ensures
        res.deep_view() == stored_tags(text@),
{
    match decode_strings(text) {
        Some(v) => v,
        None => {
            let v: Vec<String> = Vec::new();
            assert(v.deep_view() =~= Seq::<Seq<char>>::empty());
            v
        },
    }
}

} // verus!
