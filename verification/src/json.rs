//! Reading and writing JSON documents, which the engine holds as text.

use vstd::prelude::*;

use crate::types::Json;

verus! {

/// The string that stands at a JSON pointer of a document, where the document
/// parses and a string stands there; the empty pointer is the whole document.
pub uninterp spec fn json_str_at(doc: Seq<char>, pointer: Seq<char>) -> Option<Seq<char>>;

/// `serde_json::Value::pointer` and `as_str` on the parsed document: the string
/// at the pointer, or nothing where the text is no JSON, nothing stands there,
/// or what stands there is not a string.
#[verifier::external_body]
pub(crate) fn str_at(doc: &str, pointer: &str) -> (r: Option<String>)
    ensures
        r.deep_view() == json_str_at(doc@, pointer@),
{
    let value: serde_json::Value = serde_json::from_str(doc).ok()?;
    value.pointer(pointer).and_then(|v| v.as_str()).map(String::from)
}

/// The whole number that stands at a JSON pointer of a document, where the
/// document parses and a number that fits 64 bits with a sign stands there.
pub uninterp spec fn json_int_at(doc: Seq<char>, pointer: Seq<char>) -> Option<i64>;

/// `serde_json::Value::pointer` and `as_i64` on the parsed document: the whole
/// number at the pointer, or nothing where the text is no JSON, nothing stands
/// there, or what stands there is no such number.
#[verifier::external_body]
pub(crate) fn int_at(doc: &str, pointer: &str) -> (r: Option<i64>)
    ensures
        r == json_int_at(doc@, pointer@),
{
    let value: serde_json::Value = serde_json::from_str(doc).ok()?;
    value.pointer(pointer).and_then(|v| v.as_i64())
}

/// The digit for a number under sixteen, as an escape writes it.
pub open spec fn hex_digit(n: int) -> char {
    if n < 10 {
        ('0' as int + n) as char
    } else {
        ('a' as int + n - 10) as char
    }
}

/// A character as it stands in a JSON string: the quote, the backslash and the
/// control characters escaped, everything else as it is.
pub open spec fn json_char(c: char) -> Seq<char> {
    let n = c as int;
    if c == '"' || c == '\\' {
        seq!['\\', c]
    } else if n == 0x8 {
        seq!['\\', 'b']
    } else if n == 0x9 {
        seq!['\\', 't']
    } else if n == 0xa {
        seq!['\\', 'n']
    } else if n == 0xc {
        seq!['\\', 'f']
    } else if n == 0xd {
        seq!['\\', 'r']
    } else if n < 0x20 {
        seq!['\\', 'u', '0', '0', hex_digit(n / 16), hex_digit(n % 16)]
    } else {
        seq![c]
    }
}

pub open spec fn json_chars(s: Seq<char>) -> Seq<char>
    decreases s.len(),
{
    if s.len() == 0 {
        seq![]
    } else {
        json_chars(s.drop_last()) + json_char(s.last())
    }
}

/// The JSON text of a string: in quotes, with what JSON escapes escaped.
pub open spec fn json_string(s: Seq<char>) -> Seq<char> {
    seq!['"'] + json_chars(s) + seq!['"']
}

/// `serde_json::Value::to_string` on a string value: its JSON text, character by
/// character, which reads back as the string.
#[verifier::external_body]
pub(crate) fn quote(s: &str) -> (r: String)
    ensures
        r@ == json_string(s@),
        json_str_at(r@, ""@) == Some(s@),
{
    serde_json::Value::from(s).to_string()
}

/// What `{:?}` prints of a parsed document; nothing where the text is no JSON.
pub uninterp spec fn json_debug(doc: Seq<char>) -> Option<Seq<char>>;

/// The `Debug` text of the `serde_json::Value` that the document parses to, which
/// names the kind of value; nothing where the text is no JSON.
#[verifier::external_body]
pub(crate) fn debug_value(doc: &str) -> (r: Option<String>)
    ensures
        r.deep_view() == json_debug(doc@),
{
    let value: serde_json::Value = serde_json::from_str(doc).ok()?;
    Some(format!("{:?}", value))
}

/// The members of a JSON object by name and compact text, in the order that the
/// parsed object keeps; none where the document is not an object.
pub uninterp spec fn json_members(doc: Seq<char>) -> Seq<(Seq<char>, Seq<char>)>;

/// `serde_json::Value::as_object` on the parsed document, each member as its
/// name and its value's compact text.
#[verifier::external_body]
pub(crate) fn members(doc: &str) -> (r: Vec<(String, String)>)
    ensures
        r.deep_view() == json_members(doc@),
{
    let value: serde_json::Value = serde_json::from_str(doc).unwrap_or_default();
    match value.as_object() {
        Some(map) => map.iter().map(|(k, v)| (k.clone(), v.to_string())).collect(),
        None => Vec::new(),
    }
}

/// A JSON value as prose: a string without its quotes, anything else as it is
/// written.
pub open spec fn prose(doc: Seq<char>) -> Seq<char> {
    match json_str_at(doc, ""@) {
        Some(s) => s,
        None => doc,
    }
}

pub fn value_text(v: &Json) -> (r: String)
    ensures
        r@ == prose(v.deep_view()),
{
    match str_at(v.text.as_str(), "") {
        Some(s) => s,
        None => v.text.clone(),
    }
}

/// The string at a pointer of a call's arguments, where there is one.
pub fn string_arg(args: &Json, pointer: &str) -> (r: Option<String>)
    ensures
        r.deep_view() == json_str_at(args.deep_view(), pointer@),
{
    str_at(args.text.as_str(), pointer)
}

/// The whole-number argument at a pointer of a call's arguments.
pub fn integer_arg(args: &Json, pointer: &str) -> (r: Option<i64>)
    ensures
        r == json_int_at(args.deep_view(), pointer@),
{
    int_at(args.text.as_str(), pointer)
}

/// The document whose whole content is the string.
pub fn text_value(s: &str) -> (r: Json)
    ensures
        r.deep_view() == json_string(s@),
        prose(r.deep_view()) == s@,
{
    Json { text: quote(s) }
}

/// The object with one string member.
pub open spec fn object_of(name: Seq<char>, value: Seq<char>) -> Seq<char> {
    "{\""@ + name + "\":"@ + json_string(value) + "}"@
}

/// The object with the one string member `name`, which needs no escape.
pub fn object(name: &str, value: &str) -> (r: Json)
    ensures
        r.deep_view() == object_of(name@, value@),
{
    let quoted: String = quote(value);
    Json { text: crate::text::cat5("{\"", name, "\":", quoted.as_str(), "}") }
}

/// A string reads without its quotes, and anything else as it is written.
pub proof fn a_string_reads_without_quotes(doc: Seq<char>)
    ensures
        json_str_at(doc, ""@) matches Some(s) ==> prose(doc) == s,
        json_str_at(doc, ""@) is None ==> prose(doc) == doc,
{
}

/// A string is written between quotes, one character after the other; what needs no escape
/// stays as it is.
pub proof fn a_string_is_written_between_quotes(s: Seq<char>, c: char)
    ensures
        json_string(seq![]) == seq!['"', '"'],
        json_string(s).len() >= 2 && json_string(s)[0] == '"' && json_string(s).last() == '"',
        json_string(s.push(c)) == json_string(s).drop_last() + json_char(c) + seq!['"'],
        c != '"' && c != '\\' && c as int >= 0x20 ==> json_char(c) == seq![c],
        c == '"' || c == '\\' ==> json_char(c) == seq!['\\', c],
{
    assert(s.push(c).drop_last() =~= s);
    assert(json_string(s).drop_last() =~= seq!['"'] + json_chars(s));
    assert(json_string(seq![]) =~= seq!['"', '"']);
    assert(json_string(s.push(c)) =~= json_string(s).drop_last() + json_char(c) + seq!['"']);
}

/// An object with one member names it and holds the string behind it.
pub proof fn an_object_holds_its_member(name: Seq<char>, value: Seq<char>)
    ensures
        object_of(name, value) == "{\""@ + name + "\":"@ + json_string(value) + "}"@,
{
}

} // verus!
