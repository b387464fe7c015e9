//! Lists of strings as JSON arrays, the form in which the index stores the
//! authors and files of a change.
use vstd::prelude::*;

use crate::text::joined;

verus! {

/// A serde_json error.
#[verifier::external_type_specification]
#[verifier::external_body]
pub struct ExJsonError(serde_json::Error);

/// A hexadecimal digit, in lower case.
pub open spec fn hex_digit(d: nat) -> char {
    if d < 10 {
        ('0' as nat + d) as char
    } else {
        ('a' as nat + d - 10) as char
    }
}

/// How a character is written inside a JSON string: a quote and a backslash
/// are escaped with a backslash, the control characters with a short escape
/// (`\b`, `\t`, `\n`, `\f`, `\r`) or else `\u00` and two hex digits; every
/// other character stands for itself.
pub open spec fn json_escaped_char(c: char) -> Seq<char> {
    if c == '"' {
        seq!['\\', '"']
    } else if c == '\\' {
        seq!['\\', '\\']
    } else if c == '\x08' {
        seq!['\\', 'b']
    } else if c == '\t' {
        seq!['\\', 't']
    } else if c == '\n' {
        seq!['\\', 'n']
    } else if c == '\x0c' {
        seq!['\\', 'f']
    } else if c == '\r' {
        seq!['\\', 'r']
    } else if (c as nat) < 0x20 {
        seq!['\\', 'u', '0', '0', hex_digit(c as nat / 16), hex_digit(c as nat % 16)]
    } else {
        seq![c]
    }
}

/// The characters of a string, each escaped for JSON.
pub open spec fn json_escaped(s: Seq<char>) -> Seq<char>
    decreases s.len(),
{
    if s.len() == 0 {
        seq![]
    } else {
        json_escaped(s.drop_last()) + json_escaped_char(s.last())
    }
}

/// A string as a JSON string literal.
pub open spec fn json_quoted(s: Seq<char>) -> Seq<char> {
    seq!['"'] + json_escaped(s) + seq!['"']
}

/// The serialization of a list of strings as a compact JSON array
/// (`serde_json::to_string` of a `Vec<String>`): the quoted strings between
/// brackets, separated by commas, without spaces.
pub open spec fn json_string_array(items: Seq<Seq<char>>) -> Seq<char> {
    seq!['['] + joined(items.map_values(|s: Seq<char>| json_quoted(s)), seq![',']) + seq![']']
}

/// The list of strings that a text holds as a JSON array
/// (`serde_json::from_str::<Vec<String>>`), or nothing when it holds none.
pub uninterp spec fn json_string_array_parse(text: Seq<char>) -> Option<Seq<Seq<char>>>;

/// Serializes a list of strings as a JSON array with `serde_json::to_string`.
/// The compact formatter writes `[`, the strings separated by `,`, and `]`;
/// each string is quoted and escaped by the table `ESCAPE` of serde_json's
/// `ser.rs`. Serializing strings into a `Vec<u8>` cannot fail, so the result
/// is always `Ok`.
#[verifier::external_body]
pub(crate) fn json_of_strings(items: &Vec<String>) -> (r: Result<String, serde_json::Error>)
    ensures
        r is Ok,
        r matches Ok(text) ==> text@ == json_string_array(items.deep_view()),
{
    serde_json::to_string(items)
}

/// Reads a list of strings from a JSON array with `serde_json::from_str`;
/// it fails exactly when the text holds no such array.
#[verifier::external_body]
fn strings_of_json(text: &str) -> (r: Result<Vec<String>, serde_json::Error>)
    ensures
        r matches Ok(items) ==> json_string_array_parse(text@) == Some(items.deep_view()),
        r is Err ==> json_string_array_parse(text@) is None,
{
    serde_json::from_str(text)
}

/// The list of strings in a JSON array, or an empty list when the text
/// holds none (`from_str(..).unwrap_or_default()`).
pub fn string_list_or_empty(text: &str) -> (items: Vec<String>)
    ensures
        items.deep_view() == match json_string_array_parse(text@) {
            Some(v) => v,
            None => Seq::empty(),
        },
{
    match strings_of_json(text) {
        Ok(items) => items,
        Err(_) => {
            let empty: Vec<String> = Vec::new();
            assert(empty.deep_view() =~= Seq::<Seq<char>>::empty());
            empty
        },
    }
}

} // verus!
