//! JSON values, held by their compact text.
//!
//! The facade hardly looks inside a JSON value: it carries arguments from the
//! model to a tool, shows results to the model, and asks whether two values
//! are equal. All of that is answered from the one compact text a value
//! prints as, so that text is what [`Json`] holds.
use vstd::prelude::*;
use crate::seqs::view_of;
use crate::text::same_text;

verus! {

/// What `serde_json` prints for the value it parses out of a text; `None`
/// where the text is not one JSON value.
pub uninterp spec fn compact_of(text: Seq<char>) -> Option<Seq<char>>;

/// What `serde_json` prints for a JSON string with the given characters.
pub uninterp spec fn quoted(text: Seq<char>) -> Seq<char>;

/// The characters of the JSON string that a text is; `None` where
/// `serde_json` cannot read it as one JSON string.
pub uninterp spec fn string_in(text: Seq<char>) -> Option<Seq<char>>;

/// `serde_json::from_str::<serde_json::Value>`, the value printed compactly.
///
/// Claimed: the outcome depends on the text alone.
#[verifier::external_body]
fn parse_compact(text: &str) -> (out: Option<String>)
    ensures
        out is Some == compact_of(text@) is Some,
        out matches Some(s) ==> compact_of(text@) == Some(s@),
{
    match serde_json::from_str::<serde_json::Value>(text) {
        Ok(value) => Some(value.to_string()),
        Err(_) => None,
    }
}

/// `serde_json::Value::String`, printed compactly.
///
/// Claimed: the outcome depends on the characters alone, it is one JSON
/// value in compact form, and reading it back gives the characters again.
#[verifier::external_body]
fn print_string(text: &str) -> (out: String)
    ensures
        out@ == quoted(text@),
        compact_of(out@) == Some(out@),
        string_in(out@) == Some(text@),
{
    serde_json::Value::String(text.to_string()).to_string()
}

/// `serde_json::from_str::<String>`.
///
/// Claimed: the outcome depends on the text alone.
#[verifier::external_body]
fn parse_string(text: &str) -> (out: Option<String>)
    ensures
        out is Some == string_in(text@) is Some,
        out matches Some(s) ==> string_in(text@) == Some(s@),
{
    serde_json::from_str::<String>(text).ok()
}

/// The text a JSON object holds under a key: `None` where the text is not a
/// JSON object, holds nothing there, or holds something else than a text.
pub uninterp spec fn field_of(text: Seq<char>, key: Seq<char>) -> Option<Seq<char>>;

/// `serde_json::from_str`, `serde_json::Value::get` and
/// `serde_json::Value::as_str`: the text a JSON object holds under a key.
///
/// Claimed: the outcome depends on the text and the key alone.
#[verifier::external_body]
fn read_field(text: &str, key: &str) -> (out: Option<String>)
    ensures
        view_of(out) == field_of(text@, key@),
{
    let value: serde_json::Value = serde_json::from_str(text).ok()?;
    value.get(key)?.as_str().map(|held| held.to_string())
}

/// Whether two texts are JSON values that `serde_json` takes as equal.
pub uninterp spec fn values_equal(a: Seq<char>, b: Seq<char>) -> bool;

/// `==` of `serde_json::Value`, on the values two texts are.
///
/// Claimed: the outcome depends on the two texts alone.
#[verifier::external_body]
fn compare_values(a: &str, b: &str) -> (out: bool)
    ensures
        out == values_equal(a@, b@),
{
    match (
        serde_json::from_str::<serde_json::Value>(a),
        serde_json::from_str::<serde_json::Value>(b),
    ) {
        (Ok(x), Ok(y)) => x == y,
        _ => false,
    }
}

/// Whether two compact texts are equal values. Two texts may be: a zero and a
/// negative zero.
pub open spec fn alike(a: Seq<char>, b: Seq<char>) -> bool {
    a == b || values_equal(a, b)
}

/// One JSON value.
#[derive(Debug)]
pub struct Json {
    text: String,
}

impl View for Json {
    type V = Seq<char>;

    closed spec fn view(&self) -> Seq<char> {
        self.text@
    }
}

impl Clone for Json {
    fn clone(&self) -> (out: Self)
        ensures
            out@ == self@,
    {
        Json { text: self.text.clone() }
    }
}

/// The compact text a model's argument text stands for: the JSON value it
/// is, or, where it is none, the whole text as a JSON string.
pub open spec fn lenient(text: Seq<char>) -> Seq<char> {
    match compact_of(text) {
        Some(compact) => compact,
        None => quoted(text),
    }
}

impl Json {
    /// The value a text holds, if it is one JSON value.
    pub fn parse(text: &str) -> (out: Option<Json>)
        ensures
            out is Some == compact_of(text@) is Some,
            out matches Some(j) ==> compact_of(text@) == Some(j@),
    {
        match parse_compact(text) {
            Some(text) => Some(Json { text }),
            None => None,
        }
    }

    /// A JSON string.
    pub fn string(text: &str) -> (out: Json)
        ensures
            out@ == quoted(text@),
            compact_of(out@) == Some(out@),
            string_in(out@) == Some(text@),
    {
        Json { text: print_string(text) }
    }

    /// What `text` stands for where a model was to write JSON: the value it
    /// is, or the raw text as a JSON string so that nothing is lost.
    pub fn lenient(text: &str) -> (out: Json)
        ensures
            out@ == lenient(text@),
    {
        Json::parsed_or_quoted(Json::parse(text), text)
    }

    /// A parsed value, or the text it was to be parsed from as a string.
    pub fn parsed_or_quoted(parsed: Option<Json>, text: &str) -> (out: Json)
        ensures
            parsed matches Some(j) ==> out == j,
            parsed is None ==> out@ == quoted(text@) && compact_of(out@) == Some(out@),
    {
        match parsed {
            Some(j) => j,
            None => Json::string(text),
        }
    }

    /// The value as compact text.
    pub fn as_str(&self) -> (out: &str)
        ensures
            out@ == self@,
    {
        self.text.as_str()
    }

    /// The characters of the value, if it is a string.
    pub fn to_text(&self) -> (out: Option<String>)
        ensures
            out is Some == string_in(self@) is Some,
            out matches Some(s) ==> string_in(self@) == Some(s@),
    {
        parse_string(self.text.as_str())
    }

    /// The text the value holds under a key, where it is an object that does.
    pub fn field(&self, key: &str) -> (out: Option<String>)
        ensures
            view_of(out) == field_of(self@, key@),
    {
        read_field(self.text.as_str(), key)
    }

    /// Whether two values are equal.
    pub fn same(&self, other: &Json) -> (out: bool)
        ensures
            out == alike(self@, other@),
    {
        same_text(self.text.as_str(), other.text.as_str()) || compare_values(
            self.text.as_str(),
            other.text.as_str(),
        )
    }
}

impl PartialEq for Json {
    fn eq(&self, other: &Json) -> (out: bool) {
        self.same(other)
    }
}

impl vstd::std_specs::cmp::PartialEqSpecImpl for Json {
    open spec fn obeys_eq_spec() -> bool {
        true
    }

    open spec fn eq_spec(&self, other: &Json) -> bool {
        alike(self@, other@)
    }
}

impl Eq for Json {

}

/// The characters of the JSON string that a whole text is, if it is one.
pub fn text_of_json(text: &str) -> (out: Option<String>)
    ensures
        out is Some == string_in(text@) is Some,
        out matches Some(s) ==> string_in(text@) == Some(s@),
{
    parse_string(text)
}

/// Argument text that is a JSON value is taken as that value; any other is
/// kept whole, as a JSON string.
pub proof fn argument_text_is_never_lost(text: Seq<char>)
    ensures
        compact_of(text) matches Some(compact) ==> lenient(text) == compact,
        compact_of(text) is None ==> lenient(text) == quoted(text),
        alike(text, text),
{
}

} // verus!
