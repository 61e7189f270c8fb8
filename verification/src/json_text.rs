//! JSON values as text: on one line, or laid out with line breaks and indentation.

use crate::json::{held, JsonView};
use vstd::prelude::*;

verus! {

/// No character of the text is a control character.
pub open spec fn printable(s: Seq<char>) -> bool {
    forall|i: int| 0 <= i < s.len() ==> #[trigger] s[i] >= ' '
}

/// Lists and objects are nested no deeper than `n`.
pub open spec fn nested_within(v: JsonView, n: nat) -> bool
    decreases n,
{
    match v {
        JsonView::List(values) => n > 0 && forall|i: int|
            0 <= i < values.len() ==> nested_within(#[trigger] values[i], (n - 1) as nat),
        JsonView::Object(fields) => n > 0 && forall|i: int|
            0 <= i < fields.len() ==> nested_within((#[trigger] fields[i]).1, (n - 1) as nat),
        _ => true,
    }
}

/// What `serde_json::to_string` prints of a value.
pub uninterp spec fn line_of(value: JsonView) -> Seq<char>;

/// What `serde_json::to_string_pretty` prints of a value.
pub uninterp spec fn laid_out(value: JsonView) -> Seq<char>;

/// What a value holds after `serde_json::Value::sort_all_objects`.
pub uninterp spec fn keys_sorted(value: JsonView) -> JsonView;

/// What the value that `serde_json::from_str` reads from a text holds; `None` where the text is
/// no JSON.
pub uninterp spec fn read_as(text: Seq<char>) -> Option<JsonView>;

/// `serde_json::to_string`, applied to a value. The contract gives the result a name, and says
/// that printing a value never fails and leaves no control character, that an object stands
/// between braces, and that `serde_json::from_str` reads the value back, unless it is nested too
/// deep for that.
#[verifier::external_body]
fn print_line(value: &serde_json::Value) -> (r: Result<String, serde_json::Error>)
    ensures
        r is Ok,
        r->Ok_0@ == line_of(held(*value)),
        printable(r->Ok_0@),
        held(*value) is Object ==> r->Ok_0@.len() > 0 && r->Ok_0@[0] == '{' && r->Ok_0@.last()
            == '}',
        nested_within(held(*value), 100) ==> read_as(r->Ok_0@) == Some(held(*value)),
{
    serde_json::to_string(value)
}

/// `serde_json::to_string_pretty`, applied to a value: it is printed with line breaks and an
/// indentation of two spaces for each level. The contract gives the result a name, and says that
/// printing a value never fails.
#[verifier::external_body]
fn print_pretty(value: &serde_json::Value) -> (r: Result<String, serde_json::Error>)
    ensures
        r is Ok,
        r->Ok_0@ == laid_out(held(*value)),
{
    serde_json::to_string_pretty(value)
}

/// `serde_json::Value::sort_all_objects`: the fields of each object, at any depth, are put in
/// the order of their names. The contract gives what the value then holds a name.
#[verifier::external_body]
fn sort_keys(value: &mut serde_json::Value)
    ensures
        held(*final(value)) == keys_sorted(held(*old(value))),
{
    value.sort_all_objects();
}

/// `serde_json::from_str`, read into a value. The contract gives the result a name.
#[verifier::external_body]
fn read_value(text: &str) -> (r: Result<serde_json::Value, serde_json::Error>)
    ensures
        read_as(text@) == match r {
            Ok(v) => Some(held(v)),
            Err(_) => None,
        },
{
    serde_json::from_str(text)
}

/// A value that could not be printed. Printing a value does not fail.
#[derive(Debug, Clone, Copy, PartialEq, Eq, Structural)]
pub struct JsonError;

/// Prints a value on one line, without any space.
pub fn compact(value: &serde_json::Value) -> (r: String)
    ensures
        r@ == line_of(held(*value)),
        printable(r@),
        held(*value) is Object ==> r@.len() > 0 && r@[0] == '{' && r@.last() == '}',
        nested_within(held(*value), 100) ==> read_as(r@) == Some(held(*value)),
{
    match print_line(value) {
        Ok(s) => s,
        Err(_) => String::new(),
    }
}

/// Prints a value with line breaks and indentation, its fields in the order in which they stand.
pub fn pretty(value: &serde_json::Value) -> (r: Result<String, JsonError>)
    ensures
        r is Ok,
        r->Ok_0@ == laid_out(held(*value)),
{
    match print_pretty(value) {
        Ok(s) => Ok(s),
        Err(_) => Err(JsonError),
    }
}

/// Prints a value with line breaks and indentation, the fields of each object in the order of
/// their names.
pub fn pretty_ordered(value: serde_json::Value) -> (r: Result<String, JsonError>)
    ensures
        r is Ok,
        r->Ok_0@ == laid_out(keys_sorted(held(value))),
{
    let mut ordered = value;
    sort_keys(&mut ordered);
    pretty(&ordered)
}

/// Reads a value from a text.
pub fn parse(text: &str) -> (r: Option<serde_json::Value>)
    ensures
        read_as(text@) == match r {
            Some(v) => Some(held(v)),
            None => None,
        },
{
    match read_value(text) {
        Ok(v) => Some(v),
        Err(_) => None,
    }
}

} // verus!
