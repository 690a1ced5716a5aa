//! JSON as plain values.

use crate::arithmetic::one_is_large;
use crate::binary64::absolute;
use crate::binary64::magnitude;
use crate::binary64::one_in_units;
use crate::binary64::Binary64;
use crate::decimal::decimal_digits;
use crate::decimal::integer_in;
use crate::decimal::number_in;
use crate::decimal::parse_binary64;
use crate::decimal::parse_i64;
use crate::text::same_text;
use vstd::arithmetic::div_mod::lemma_fundamental_div_mod;
use vstd::prelude::*;

verus! {

/// A JSON value. A number is held as the text that writes it.
pub enum JsonValue {
    Null,
    Bool(bool),
    Number(String),
    Text(String),
    Array(Vec<JsonValue>),
    Object(Vec<(String, JsonValue)>),
}

/// The tree type of `serde_json`.
#[verifier::external_type_specification]
#[verifier::external_body]
pub struct ExSerdeValue(serde_json::Value);

/// The error type of `serde_json`.
#[verifier::external_type_specification]
#[verifier::external_body]
pub struct ExSerdeError(serde_json::Error);

/// What a tree of `serde_json` holds.
pub uninterp spec fn tree_of(value: serde_json::Value) -> JsonValue;

/// The value that a text writes, if it is JSON and not nested too deep.
pub uninterp spec fn json_in(text: Seq<char>) -> Option<JsonValue>;

/// `serde_json::from_str` into a `serde_json::Value`: fails exactly where the text is not JSON, or
/// nests arrays and objects more than 127 deep.
#[verifier::external_body]
fn read_tree(text: &str) -> (r: Result<serde_json::Value, serde_json::Error>)
    ensures
        match r {
            Ok(value) => json_in(text@) == Some(tree_of(value)),
            Err(_) => json_in(text@) is None,
        },
{
    serde_json::from_str::<serde_json::Value>(text)
}

/// Takes a `serde_json::Value` apart, variant by variant; a number becomes the text that its
/// `Display` writes.
#[verifier::external_body]
fn take_tree(value: serde_json::Value) -> (r: JsonValue)
    ensures
        r == tree_of(value),
{
    match value {
        serde_json::Value::Null => JsonValue::Null,
        serde_json::Value::Bool(flag) => JsonValue::Bool(flag),
        serde_json::Value::Number(number) => JsonValue::Number(number.to_string()),
        serde_json::Value::String(text) => JsonValue::Text(text),
        serde_json::Value::Array(items) => JsonValue::Array(
            items.into_iter().map(take_tree).collect(),
        ),
        serde_json::Value::Object(fields) => JsonValue::Object(
            fields.into_iter().map(|(name, field)| (name, take_tree(field))).collect(),
        ),
    }
}

/// Reads JSON text.
pub fn parse_json(text: &str) -> (r: Option<JsonValue>)
    ensures
        r == json_in(text@),
{
    match read_tree(text) {
        Ok(value) => Some(take_tree(value)),
        Err(_) => None,
    }
}

/// The tree of `serde_json` that is made of a value, if its numbers are JSON.
pub uninterp spec fn tree_from(value: JsonValue) -> Option<JsonValue>;

/// The text that `serde_json` writes for what a tree holds.
pub uninterp spec fn json_text(tree: JsonValue) -> Seq<char>;

/// How deep a value may nest for `serde_json` to read it back.
pub open spec fn readable_depth() -> nat {
    127
}

/// Whether a number is written as it is read: a whole number that needs no sign, or any other
/// whose text is read back as it is.
pub open spec fn is_settled(number: String) -> bool {
    (exists|n: nat| n <= u64::MAX && number@ == #[trigger] decimal_digits(n)) || json_in(number@)
        == Some(JsonValue::Number(number))
}

/// Whether one text stands before another, character by character.
pub open spec fn stands_before(a: Seq<char>, b: Seq<char>) -> bool
    decreases a.len(),
{
    if b.len() == 0 {
        false
    } else if a.len() == 0 {
        true
    } else if a[0] == b[0] {
        stands_before(a.drop_first(), b.drop_first())
    } else {
        a[0] < b[0]
    }
}

/// Whether a value is one as `serde_json` keeps it, no deeper than `depth`: numbers as they are
/// written, and the fields of objects in the order of their names.
pub open spec fn is_kept(value: JsonValue, depth: nat) -> bool
    decreases depth,
{
    match value {
        JsonValue::Number(number) => is_settled(number),
        JsonValue::Array(items) => depth > 0 && forall|i: int|
            0 <= i < items@.len() ==> is_kept(#[trigger] items@[i], (depth - 1) as nat),
        JsonValue::Object(entries) => {
            &&& depth > 0
            &&& forall|i: int|
                0 <= i < entries@.len() ==> is_kept((#[trigger] entries@[i]).1, (depth - 1) as nat)
            &&& names_in_order(entries@)
        },
        _ => true,
    }
}

/// Makes a `serde_json::Value`, variant by variant; a number is read by `serde_json::from_str`
/// into a `serde_json::Number`, and where that fails there is no tree. What is kept in the form
/// of `serde_json` is held by the tree as it is.
#[verifier::external_body]
fn make_tree(value: &JsonValue) -> (r: Option<serde_json::Value>)
    ensures
        match r {
            Some(tree) => tree_from(*value) == Some(tree_of(tree)),
            None => tree_from(*value) is None,
        },
        is_kept(*value, readable_depth()) ==> r is Some && tree_of(r->0) == *value,
{
    Some(
        match value {
            JsonValue::Null => serde_json::Value::Null,
            JsonValue::Bool(flag) => serde_json::Value::Bool(*flag),
            JsonValue::Number(text) => serde_json::Value::Number(serde_json::from_str(text).ok()?),
            JsonValue::Text(text) => serde_json::Value::String(text.clone()),
            JsonValue::Array(items) => serde_json::Value::Array(
                items.iter().map(make_tree).collect::<Option<_>>()?,
            ),
            JsonValue::Object(entries) => serde_json::Value::Object(
                entries.iter().map(|(name, v)| Some((name.clone(), make_tree(v)?))).collect::<Option<_>>()?,
            ),
        },
    )
}

/// `serde_json::to_string` of a `serde_json::Value`, which cannot fail: one line without blanks
/// between the parts, which is read back as what the tree holds, unless it is nested too deep or
/// holds a number that is not read as it is written.
#[verifier::external_body]
fn write_tree(tree: &serde_json::Value) -> (r: Result<String, serde_json::Error>)
    ensures
        r is Ok,
        r->Ok_0@ == json_text(tree_of(*tree)),
        !r->Ok_0@.contains('\n'),
        is_kept(tree_of(*tree), readable_depth()) ==> json_in(r->Ok_0@) == Some(tree_of(*tree)),
{
    serde_json::to_string(tree)
}

/// The text of a value, if its numbers are JSON.
pub open spec fn text_for(value: JsonValue) -> Option<Seq<char>> {
    match tree_from(value) {
        Some(tree) => Some(json_text(tree)),
        None => None,
    }
}

/// Writes JSON text on one line.
pub fn write_json(value: &JsonValue) -> (r: Option<String>)
    ensures
        match r {
            Some(text) => text_for(*value) == Some(text@) && !text@.contains('\n'),
            None => text_for(*value) is None,
        },
        is_kept(*value, readable_depth()) ==> r is Some && json_in(r->0@) == Some(*value),
{
    match make_tree(value) {
        Some(tree) => match write_tree(&tree) {
            Ok(text) => Some(text),
            Err(_) => None,
        },
        None => None,
    }
}

/// The first entry with the given name.
pub open spec fn entry(entries: Seq<(String, JsonValue)>, name: Seq<char>) -> Option<JsonValue>
    decreases entries.len(),
{
    if entries.len() == 0 {
        None
    } else if entries[0].0@ == name {
        Some(entries[0].1)
    } else {
        entry(entries.drop_first(), name)
    }
}

/// Whether names stand in order.
pub open spec fn names_in_order(entries: Seq<(String, JsonValue)>) -> bool {
    forall|i: int, j: int|
        0 <= i < j < entries.len() ==> stands_before(
            (#[trigger] entries[i]).0@,
            (#[trigger] entries[j]).0@,
        )
}

/// Names in order find their own fields.
pub proof fn ordered_fields_are_found(entries: Seq<(String, JsonValue)>, at: int)
    requires
        names_in_order(entries),
        0 <= at < entries.len(),
    ensures
        entry(entries, entries[at].0@) == Some(entries[at].1),
    decreases entries.len(),
{
    if at > 0 {
        let rest = entries.drop_first();
        assert(rest[at - 1] == entries[at]);
        assert forall|i: int, j: int| 0 <= i < j < rest.len() implies stands_before(
            (#[trigger] rest[i]).0@,
            (#[trigger] rest[j]).0@,
        ) by {
            assert(rest[i] == entries[i + 1] && rest[j] == entries[j + 1]);
        }
        ordered_fields_are_found(rest, at - 1);
        assert(stands_before(entries[0].0@, entries[at].0@));
        lemma_not_before_itself(entries[0].0@);
    }
}

proof fn lemma_not_before_itself(a: Seq<char>)
    ensures
        !stands_before(a, a),
    decreases a.len(),
{
    if a.len() > 0 {
        lemma_not_before_itself(a.drop_first());
    }
}

impl JsonValue {
    /// The field of an object; no field where it has none or is no object.
    pub open spec fn field(self, name: Seq<char>) -> Option<JsonValue> {
        match self {
            JsonValue::Object(entries) => entry(entries@, name),
            _ => None,
        }
    }

    /// The field of an object.
    pub fn get(&self, name: &str) -> (r: Option<&JsonValue>)
        ensures
            match r {
                Some(value) => self.field(name@) == Some(*value),
                None => self.field(name@) is None,
            },
    {
        match self {
            JsonValue::Object(entries) => {
                let mut i: usize = 0;
                assert(entries@.skip(0) =~= entries@);
                while i < entries.len()
                    invariant
                        i <= entries.len(),
                        *self == JsonValue::Object(*entries),
                        entry(entries@, name@) == entry(entries@.skip(i as int), name@),
                    decreases entries.len() - i,
                {
                    assert(entries@.skip(i as int).drop_first() =~= entries@.skip(i + 1));
                    if same_text(entries[i].0.as_str(), name) {
                        return Some(&entries[i].1);
                    }
                    i = i + 1;
                }
                None
            },
            _ => None,
        }
    }
}

/// The text that an optional value is.
pub open spec fn text_of(value: Option<JsonValue>) -> Option<Seq<char>> {
    match value {
        Some(JsonValue::Text(text)) => Some(text@),
        _ => None,
    }
}

pub fn as_text<'a>(value: Option<&'a JsonValue>) -> (r: Option<&'a String>)
    ensures
        match r {
            Some(text) => value is Some && *value->0 == JsonValue::Text(*text),
            None => value is None || *value->0 !is Text,
        },
{
    match value {
        Some(JsonValue::Text(text)) => Some(text),
        _ => None,
    }
}

pub fn as_array<'a>(value: Option<&'a JsonValue>) -> (r: Option<&'a Vec<JsonValue>>)
    ensures
        match r {
            Some(items) => value is Some && *value->0 == JsonValue::Array(*items),
            None => value is None || *value->0 !is Array,
        },
{
    match value {
        Some(JsonValue::Array(items)) => Some(items),
        _ => None,
    }
}

/// The number that an optional value is or writes as text.
pub open spec fn number_of(value: Option<JsonValue>) -> Option<Binary64> {
    match value {
        Some(JsonValue::Number(text)) => number_in(text@),
        Some(JsonValue::Text(text)) => number_in(text@),
        _ => None,
    }
}

/// Reads a number, or a number written as text.
pub fn value_f64(value: Option<&JsonValue>) -> (r: Option<Binary64>)
    ensures
        r == number_of(match value {
            Some(v) => Some(*v),
            None => None,
        }),
{
    match value {
        Some(JsonValue::Number(text)) => parse_binary64(text.as_str()),
        Some(JsonValue::Text(text)) => parse_binary64(text.as_str()),
        _ => None,
    }
}

/// The integer that an optional value is or writes as text.
pub open spec fn integer_of(value: Option<JsonValue>) -> Option<i64> {
    match value {
        Some(JsonValue::Number(text)) => integer_in(text@),
        Some(JsonValue::Text(text)) => integer_in(text@),
        _ => None,
    }
}

/// Reads an integer, or an integer written as text.
pub fn value_i64(value: Option<&JsonValue>) -> (r: Option<i64>)
    ensures
        r == integer_of(match value {
            Some(v) => Some(*v),
            None => None,
        }),
{
    match value {
        Some(JsonValue::Number(text)) => parse_i64(text.as_str()),
        Some(JsonValue::Text(text)) => parse_i64(text.as_str()),
        _ => None,
    }
}

/// The text that a lenient field holds: numbers and flags as they are written, nothing for null,
/// and arrays and objects as JSON without blanks.
pub open spec fn lenient_text(value: JsonValue) -> Option<Seq<char>> {
    match value {
        JsonValue::Null => None,
        JsonValue::Text(text) => Some(text@),
        JsonValue::Number(text) => Some(text@),
        JsonValue::Bool(true) => Some("true"@),
        JsonValue::Bool(false) => Some("false"@),
        _ => Some(json_text(value)),
    }
}

/// Reads a field that should be a text. `json` is the JSON text of the field.
pub fn read_optional_text(json: &str) -> (r: Option<String>)
    ensures
        match r {
            Some(text) => json_in(json@) is Some && lenient_text(json_in(json@)->0) == Some(text@),
            None => json_in(json@) is None || lenient_text(json_in(json@)->0) is None,
        },
{
    let tree = match read_tree(json) {
        Ok(tree) => tree,
        Err(_) => {
            return None;
        },
    };
    let written = write_tree(&tree);
    match take_tree(tree) {
        JsonValue::Null => None,
        JsonValue::Text(text) => Some(text),
        JsonValue::Number(text) => Some(text),
        JsonValue::Bool(true) => Some("true".to_string()),
        JsonValue::Bool(false) => Some("false".to_string()),
        _ => match written {
            Ok(text) => Some(text),
            Err(_) => None,
        },
    }
}

/// Reads a field that should be a number. `json` is the JSON text of the field.
pub fn read_number(json: &str) -> (r: Option<Binary64>)
    ensures
        r == number_of(json_in(json@)),
{
    match parse_json(json) {
        Some(value) => value_f64(Some(&value)),
        None => None,
    }
}

/// The whole number of a field: a number is cut to one, a text has to write one.
pub open spec fn whole_of(value: Option<JsonValue>) -> Option<i64> {
    match value {
        Some(JsonValue::Number(text)) => match integer_in(text@) {
            Some(n) => Some(n),
            None => match number_in(text@) {
                Some(x) => Some(x.to_i64()),
                None => None,
            },
        },
        Some(JsonValue::Text(text)) => integer_in(text@),
        _ => None,
    }
}

/// Reads a field that should be a whole number. `json` is the JSON text of the field.
pub fn read_whole(json: &str) -> (r: Option<i64>)
    ensures
        r == whole_of(json_in(json@)),
{
    match parse_json(json) {
        Some(JsonValue::Number(text)) => match parse_i64(text.as_str()) {
            Some(n) => Some(n),
            None => match parse_binary64(text.as_str()) {
                Some(x) => Some(x.to_i64()),
                None => None,
            },
        },
        Some(JsonValue::Text(text)) => parse_i64(text.as_str()),
        _ => None,
    }
}

/// The whole number of a field is the one that it writes, as a number or as a text; a number with a
/// fraction is cut, a text with one is none, and neither is anything else.
pub proof fn whole_numbers_are_cut(value: JsonValue)
    ensures
        whole_of(None) is None,
        match value {
            JsonValue::Text(text) => whole_of(Some(value)) == integer_in(text@),
            JsonValue::Number(text) => {
                let x = number_in(text@);
                let r = whole_of(Some(value));
                &&& integer_in(text@) is Some ==> r == integer_in(text@)
                &&& integer_in(text@) is None ==> (r is Some <==> x is Some)
                &&& integer_in(text@) is None && x is Some && x->0.is_finite() && absolute(
                    x->0.units(),
                ) < 0x4000_0000_0000_0000 * one_in_units() ==> {
                    &&& absolute(r->0 as int) * one_in_units() <= absolute(x->0.units())
                    &&& absolute(x->0.units()) < absolute(r->0 as int) * one_in_units() + one_in_units()
                    &&& x->0.negative() ==> r->0 <= 0
                    &&& !x->0.negative() ==> r->0 >= 0
                }
            },
            _ => whole_of(Some(value)) is None,
        },
{
    if let JsonValue::Number(text) = value {
        if let Some(x) = number_in(text@) {
            if x.is_finite() && absolute(x.units()) < 0x4000_0000_0000_0000 * one_in_units() {
                lemma_cut(x);
            }
        }
    }
}

proof fn lemma_cut(x: Binary64)
    requires
        x.is_finite(),
        absolute(x.units()) < 0x4000_0000_0000_0000 * one_in_units(),
    ensures
        absolute(x.to_i64() as int) * one_in_units() <= absolute(x.units()),
        absolute(x.units()) < absolute(x.to_i64() as int) * one_in_units() + one_in_units(),
        x.negative() ==> x.to_i64() <= 0,
        !x.negative() ==> x.to_i64() >= 0,
{
    reveal(Binary64::spec_to_i64);
    let one = one_in_units() as int;
    one_is_large();
    let n = magnitude(x.code()) as int;
    assert(absolute(x.units()) == n);
    lemma_fundamental_div_mod(n, one);
    let q = n / one;
    assert(q * one == one * q) by (nonlinear_arith);
    assert(0 <= q < 0x4000_0000_0000_0000) by (nonlinear_arith)
        requires
            0 <= one * q <= n,
            n < 0x4000_0000_0000_0000 * one,
            one > 0,
    ;
}

/// A lenient field holds texts and numbers as they are written, a word for each flag, and nothing
/// where there is nothing.
pub proof fn lenient_fields_hold_what_is_written(value: JsonValue)
    ensures
        match value {
            JsonValue::Null => lenient_text(value) is None,
            JsonValue::Text(text) => lenient_text(value) == Some(text@),
            JsonValue::Number(text) => lenient_text(value) == Some(text@),
            JsonValue::Bool(flag) => lenient_text(value) == Some(
                if flag {
                    seq!['t', 'r', 'u', 'e']
                } else {
                    seq!['f', 'a', 'l', 's', 'e']
                },
            ),
            _ => lenient_text(value) == Some(json_text(value)),
        },
{
    reveal_strlit("true");
    reveal_strlit("false");
    assert("true"@ =~= seq!['t', 'r', 'u', 'e']);
    assert("false"@ =~= seq!['f', 'a', 'l', 's', 'e']);
}

/// A number that is written as a text counts like one that is not, and nothing else is a number.
pub proof fn numbers_may_be_texts(value: JsonValue)
    ensures
        match value {
            JsonValue::Number(text) => number_of(Some(value)) == number_of(Some(JsonValue::Text(text)))
                && integer_of(Some(value)) == integer_of(Some(JsonValue::Text(text))),
            JsonValue::Text(text) => number_of(Some(value)) == number_in(text@) && integer_of(
                Some(value),
            ) == integer_in(text@),
            _ => number_of(Some(value)) is None && integer_of(Some(value)) is None,
        },
        number_of(None) is None,
        integer_of(None) is None,
{
}

} // verus!
