//! JSON values: what a `serde_json` value holds, how one is put together and taken apart.

use crate::text::chars::{chars_of, deep};
use crate::text::number::{decimal_of, digits, format_padded, format_u64, pow10, zero_padded};
use crate::text::search::eq_text;
use crate::text::split::lemma_take_all;
use crate::textmap::{distinct_keys, lemma_put_distinct, lemma_slot_is, put};
use vstd::prelude::*;
use vstd::string::StringExecFns;

verus! {

/// A JSON value. A number is the text that it prints as; an object is its fields in order.
#[verifier::ext_equal]
pub ghost enum JsonView {
    Null,
    Truth(bool),
    Number(Seq<char>),
    Text(Seq<char>),
    List(Seq<JsonView>),
    Object(Seq<(Seq<char>, JsonView)>),
}

/// Named values, in order.
pub type FieldsView = Seq<(Seq<char>, JsonView)>;

/// The value type of `serde_json`.
#[verifier::external_type_specification]
#[verifier::external_body]
pub struct ExJsonValue(serde_json::Value);

/// The number type of `serde_json`.
#[verifier::external_type_specification]
#[verifier::external_body]
pub struct ExJsonNumber(serde_json::Number);

/// The error type of `serde_json`.
#[verifier::external_type_specification]
#[verifier::external_body]
pub struct ExJsonError(serde_json::Error);

/// What a `serde_json` value holds.
pub uninterp spec fn held(value: serde_json::Value) -> JsonView;

/// What a `serde_json` number prints as.
pub uninterp spec fn number_text(number: serde_json::Number) -> Seq<char>;

/// What the number that `serde_json` reads from a text prints as; `None` where the text spells
/// no number.
pub uninterp spec fn number_shown(text: Seq<char>) -> Option<Seq<char>>;

/// A `serde_json` value by its kind.
#[derive(Debug)]
pub enum Node {
    Null,
    Truth(bool),
    Number(serde_json::Number),
    Text(String),
    List(Vec<serde_json::Value>),
    /// Fields with distinct names.
    Object(Vec<(String, serde_json::Value)>),
}

pub open spec fn list_view(values: Seq<serde_json::Value>) -> Seq<JsonView> {
    values.map_values(|v: serde_json::Value| held(v))
}

pub open spec fn fields_view(fields: Seq<(String, serde_json::Value)>) -> FieldsView {
    fields.map_values(|f: (String, serde_json::Value)| (f.0@, held(f.1)))
}

impl View for Node {
    type V = JsonView;

    open spec fn view(&self) -> JsonView {
        match *self {
            Node::Null => JsonView::Null,
            Node::Truth(b) => JsonView::Truth(b),
            Node::Number(n) => JsonView::Number(number_text(n)),
            Node::Text(s) => JsonView::Text(s@),
            Node::List(values) => JsonView::List(list_view(values@)),
            Node::Object(fields) => JsonView::Object(fields_view(fields@)),
        }
    }
}

/// The variants of `serde_json::Value`; an object is collected into a `serde_json::Map`, which
/// keeps its fields in the order given.
#[verifier::external_body]
fn make(node: Node) -> (r: serde_json::Value)
    requires
        node matches Node::Object(fields) ==> distinct_keys(fields_view(fields@)),
    ensures
        held(r) == node@,
{
    match node {
        Node::Null => serde_json::Value::Null,
        Node::Truth(b) => serde_json::Value::Bool(b),
        Node::Number(n) => serde_json::Value::Number(n),
        Node::Text(s) => serde_json::Value::String(s),
        Node::List(values) => serde_json::Value::Array(values),
        Node::Object(fields) => serde_json::Value::Object(fields.into_iter().collect()),
    }
}

/// The variant that a `serde_json::Value` is; a `serde_json::Map` gives its fields in order, and
/// no name twice.
#[verifier::external_body]
pub(crate) fn open(value: serde_json::Value) -> (r: Node)
    ensures
        r@ == held(value),
        r matches Node::Object(fields) ==> distinct_keys(fields_view(fields@)),
{
    match value {
        serde_json::Value::Null => Node::Null,
        serde_json::Value::Bool(b) => Node::Truth(b),
        serde_json::Value::Number(n) => Node::Number(n),
        serde_json::Value::String(s) => Node::Text(s),
        serde_json::Value::Array(values) => Node::List(values),
        serde_json::Value::Object(fields) => Node::Object(fields.into_iter().collect()),
    }
}

/// `serde_json::Number::from` for a whole number, which prints as its digits.
#[verifier::external_body]
fn whole_number(n: u64) -> (r: serde_json::Number)
    ensures
        number_text(r) == digits(n as int),
{
    serde_json::Number::from(n)
}

/// The text that a `serde_json::Number` prints as.
#[verifier::external_body]
pub(crate) fn show_number(n: &serde_json::Number) -> (r: String)
    ensures
        r@ == number_text(*n),
{
    n.to_string()
}

/// Digits without the zeros at their end; one is left in any case.
pub open spec fn without_zeros(s: Seq<char>) -> Seq<char>
    decreases s.len(),
{
    if s.len() > 1 && s.last() == '0' {
        without_zeros(s.drop_last())
    } else {
        s
    }
}

/// A number in millionths, with as many places behind the point as it needs and one at least.
pub open spec fn decimal_text(m: int) -> Seq<char> {
    let n = if m < 0 {
        -m
    } else {
        m
    };
    (if m < 0 {
        seq!['-']
    } else {
        Seq::empty()
    }) + digits(n / 1_000_000) + seq!['.'] + without_zeros(zero_padded(n % 1_000_000, 6))
}

/// The number of millionths ends in `z` zeros and has no more than fifteen digits before them.
pub open spec fn fifteen_digits(m: i64, z: int) -> bool {
    &&& m as int % pow10(z) == 0
    &&& -1_000_000_000_000_000 * pow10(z) <= m <= 1_000_000_000_000_000 * pow10(z)
}

/// The number of millionths has no more than fifteen significant digits, so that a JSON number
/// holds it exactly.
pub open spec fn exact(m: i64) -> bool {
    exists|z: int| 0 <= z <= 6 && #[trigger] fifteen_digits(m, z)
}

/// `serde_json::Number::from_str`. The contract gives the result a name, and says of a decimal
/// number with a point that it is read, and that one with no more than fifteen significant
/// digits still spells the same number when it is printed.
#[verifier::external_body]
fn read_number(text: &str) -> (r: Result<serde_json::Number, serde_json::Error>)
    ensures
        number_shown(text@) == match r {
            Ok(n) => Some(number_text(n)),
            Err(_) => None,
        },
        forall|m: i64| text@ == #[trigger] decimal_text(m as int) ==> r is Ok && (exact(m)
            ==> decimal_of(number_text(r->Ok_0)) == Some(m)),
{
    text.parse()
}

pub open spec fn text_value(s: Seq<char>) -> JsonView {
    JsonView::Text(s)
}

pub open spec fn whole_value(n: int) -> JsonView {
    JsonView::Number(digits(n))
}

/// A number in millionths, as JSON holds it.
pub open spec fn decimal_value(m: i64) -> JsonView {
    JsonView::Number(number_shown(decimal_text(m as int))->0)
}

/// What is read from the JSON number is the number of millionths that it was made from.
pub open spec fn reads_back(m: i64) -> bool {
    decimal_value(m) matches JsonView::Number(x) && decimal_of(x) == Some(m)
}

/// A named value.
pub open spec fn field(key: Seq<char>, value: JsonView) -> FieldsView {
    seq![(key, value)]
}

/// The fields with those of `more` put into them one after the other; a name that is there
/// already keeps its place and gets the new value.
pub open spec fn merged(fields: FieldsView, more: FieldsView) -> FieldsView
    decreases more.len(),
{
    if more.len() == 0 {
        fields
    } else {
        put(merged(fields, more.drop_last()), more.last().0, more.last().1)
    }
}

pub open spec fn object(fields: FieldsView) -> JsonView {
    JsonView::Object(merged(Seq::empty(), fields))
}

pub open spec fn list(values: Seq<JsonView>) -> JsonView {
    JsonView::List(values)
}

/// What `f` makes of each item, in order.
pub open spec fn each<A>(items: Seq<A>, f: spec_fn(A) -> JsonView) -> Seq<JsonView> {
    items.map_values(f)
}

/// A list of texts.
pub open spec fn text_list_value(items: Seq<Seq<char>>) -> JsonView {
    list(each(items, |s: Seq<char>| text_value(s)))
}

pub fn null() -> (r: serde_json::Value)
    ensures
        held(r) == JsonView::Null,
{
    make(Node::Null)
}

pub fn text(s: &str) -> (r: serde_json::Value)
    ensures
        held(r) == text_value(s@),
{
    make(Node::Text(s.to_string()))
}

pub fn whole(n: u64) -> (r: serde_json::Value)
    ensures
        held(r) == whole_value(n as int),
{
    make(Node::Number(whole_number(n)))
}

/// A number in millionths.
pub fn decimal(m: i64) -> (r: serde_json::Value)
    ensures
        held(r) == decimal_value(m),
        exact(m) ==> reads_back(m),
{
    let written = format_decimal(m);
    proof {
        assert(written@ == decimal_text(m as int));
    }
    match read_number(written.as_str()) {
        Ok(n) => make(Node::Number(n)),
        Err(_) => null(),
    }
}

fn format_decimal(m: i64) -> (r: String)
    ensures
        r@ == decimal_text(m as int),
{
    let n: u64 = if m < 0 {
        (-(m as i128)) as u64
    } else {
        m as u64
    };
    let mut out = String::new();
    if m < 0 {
        out.push('-');
    }
    out.append(format_u64(n / 1_000_000).as_str());
    out.push('.');
    let tail = chars_of(format_padded(n % 1_000_000, 6).as_str());
    let mut end: usize = tail.len();
    let ghost kept = without_zeros(tail@);
    proof {
        lemma_take_all(tail@);
    }
    while end > 1 && tail[end - 1] == '0'
        invariant
            end <= tail@.len(),
            without_zeros(tail@.take(end as int)) == kept,
        decreases end,
    {
        proof {
            assert(tail@.take(end as int).drop_last() =~= tail@.take(end - 1));
        }
        end = end - 1;
    }
    let mut i: usize = 0;
    let ghost start = out@;
    proof {
        assert(start =~= start + tail@.take(0));
    }
    while i < end
        invariant
            i <= end <= tail@.len(),
            out@ == start + tail@.take(i as int),
        decreases end - i,
    {
        out.push(tail[i]);
        proof {
            assert(out@ =~= start + tail@.take(i + 1));
        }
        i = i + 1;
    }
    proof {
        assert(out@ =~= decimal_text(m as int));
    }
    out
}

/// A list of the values.
pub fn list_of(values: Vec<serde_json::Value>) -> (r: serde_json::Value)
    ensures
        held(r) == list(list_view(values@)),
{
    make(Node::List(values))
}

/// A list of what `f` makes of each item.
pub fn list_each<T: View, F: Fn(&T) -> serde_json::Value>(
    items: &[T],
    f: F,
    Ghost(g): Ghost<spec_fn(T::V) -> JsonView>,
) -> (r: serde_json::Value)
    requires
        forall|x: &T| call_requires(f, (x,)),
        forall|x: &T, v: serde_json::Value| call_ensures(f, (x,), v) ==> held(v) == g(x@),
    ensures
        held(r) == list(each(deep(items@), g)),
{
    let mut out: Vec<serde_json::Value> = Vec::new();
    let mut i: usize = 0;
    while i < items.len()
        invariant
            i <= items@.len(),
            out@.len() == i,
            forall|j: int| 0 <= j < i ==> held(#[trigger] out@[j]) == g(items@[j]@),
            forall|x: &T| call_requires(f, (x,)),
            forall|x: &T, v: serde_json::Value| call_ensures(f, (x,), v) ==> held(v) == g(x@),
        decreases items@.len() - i,
    {
        out.push(f(&items[i]));
        i = i + 1;
    }
    proof {
        assert(list_view(out@) =~= each(deep(items@), g));
    }
    list_of(out)
}

/// A list of texts.
pub fn text_list(items: &Vec<String>) -> (r: serde_json::Value)
    ensures
        held(r) == text_list_value(deep(items@)),
{
    let f = |s: &String| -> (v: serde_json::Value)
        ensures
            held(v) == text_value(s@),
        { text(s.as_str()) };
    list_each(items.as_slice(), f, Ghost(|s: Seq<char>| text_value(s)))
}

/// The fields of an object in the making.
pub struct Fields {
    pairs: Vec<(String, serde_json::Value)>,
}

impl View for Fields {
    type V = FieldsView;

    closed spec fn view(&self) -> FieldsView {
        fields_view(self.pairs@)
    }
}

impl Fields {
    #[verifier::type_invariant]
    closed spec fn well_formed(self) -> bool {
        distinct_keys(fields_view(self.pairs@))
    }

    pub fn new() -> (r: Self)
        ensures
            r@ == FieldsView::empty(),
    {
        let r = Fields { pairs: Vec::new() };
        proof {
            assert(fields_view(r.pairs@) =~= FieldsView::empty());
        }
        r
    }

    /// Puts a value under a name.
    pub fn put(self, key: &str, value: serde_json::Value) -> (r: Self)
        ensures
            r@ == put(self@, key@, held(value)),
    {
        proof {
            use_type_invariant(&self);
            lemma_put_distinct(self@, key@, held(value));
        }
        let mut pairs = self.pairs;
        let ghost before = fields_view(pairs@);
        let mut i: usize = 0;
        while i < pairs.len() && !eq_text(pairs[i].0.as_str(), key)
            invariant
                i <= pairs@.len(),
                before == fields_view(pairs@),
                forall|j: int| 0 <= j < i ==> (#[trigger] before[j]).0 != key@,
            decreases pairs@.len() - i,
        {
            i = i + 1;
        }
        proof {
            lemma_slot_is(before, key@, i as int);
        }
        if i < pairs.len() {
            pairs.set(i, (key.to_string(), value));
            proof {
                assert(fields_view(pairs@) =~= before.update(i as int, (key@, held(value))));
            }
        } else {
            pairs.push((key.to_string(), value));
            proof {
                assert(fields_view(pairs@) =~= before.push((key@, held(value))));
            }
        }
        Fields { pairs }
    }

    pub fn text(self, key: &str, s: &str) -> (r: Self)
        ensures
            r@ == put(self@, key@, text_value(s@)),
    {
        self.put(key, text(s))
    }

    pub fn whole(self, key: &str, n: u64) -> (r: Self)
        ensures
            r@ == put(self@, key@, whole_value(n as int)),
    {
        self.put(key, whole(n))
    }

    pub fn decimal(self, key: &str, m: i64) -> (r: Self)
        ensures
            r@ == put(self@, key@, decimal_value(m)),
            exact(m) ==> reads_back(m),
    {
        self.put(key, decimal(m))
    }

    /// The object with the fields.
    pub fn close(self) -> (r: serde_json::Value)
        ensures
            held(r) == JsonView::Object(self@),
    {
        proof {
            use_type_invariant(&self);
        }
        make(Node::Object(self.pairs))
    }
}

/// One more field is put into those before it.
pub broadcast proof fn lemma_merged_field(fields: FieldsView, key: Seq<char>, value: JsonView)
    ensures
        #[trigger] merged(FieldsView::empty(), fields + field(key, value)) == put(
            merged(FieldsView::empty(), fields),
            key,
            value,
        ),
{
    let all = fields + field(key, value);
    assert(all.drop_last() =~= fields);
    assert(all.last() == (key, value));
}

/// The first field.
pub broadcast proof fn lemma_merged_first(key: Seq<char>, value: JsonView)
    ensures
        #[trigger] merged(FieldsView::empty(), field(key, value)) == put(
            FieldsView::empty(),
            key,
            value,
        ),
{
    let all = field(key, value);
    assert(all.drop_last() =~= FieldsView::empty());
    assert(merged(FieldsView::empty(), FieldsView::empty()) == FieldsView::empty());
}

/// Without fields there are none.
pub broadcast proof fn lemma_merged_none(fields: FieldsView)
    ensures
        #[trigger] merged(fields, FieldsView::empty()) == fields,
{
}

/// How an object comes to hold its fields.
pub broadcast group group_merged {
    lemma_merged_field,
    lemma_merged_first,
    lemma_merged_none,
}

} // verus!
