//! Dynamically typed configuration values, and the coercion of a command-line
//! token into one.

use crate::text::chars_of;
use serde_json::Value;
use vstd::prelude::*;
use vstd::string::*;

verus! {

/// A configuration value before it is decoded into a typed field.
#[derive(Clone, Debug, PartialEq, Eq)]
pub enum ConfigValue {
    /// The JSON value `null`.
    Null,
    /// A boolean.
    Bool(bool),
    /// A number, held as its decimal text.
    Number(String),
    /// A string.
    Text(String),
    /// An array or an object, held as its JSON text.
    Structured(String),
}

/// What a [`ConfigValue`] holds, as mathematical values.
pub enum ValueView {
    Null,
    Bool(bool),
    Number(Seq<char>),
    Text(Seq<char>),
    Structured(Seq<char>),
}

impl View for ConfigValue {
    type V = ValueView;

    open spec fn view(&self) -> ValueView {
        match self {
            ConfigValue::Null => ValueView::Null,
            ConfigValue::Bool(b) => ValueView::Bool(*b),
            ConfigValue::Number(t) => ValueView::Number(t@),
            ConfigValue::Text(t) => ValueView::Text(t@),
            ConfigValue::Structured(t) => ValueView::Structured(t@),
        }
    }
}

impl ConfigValue {
    /// A copy that holds the same value.
    pub fn duplicate(&self) -> (r: ConfigValue)
        ensures
            r@ == self@,
    {
        match self {
            ConfigValue::Null => ConfigValue::Null,
            ConfigValue::Bool(b) => ConfigValue::Bool(*b),
            ConfigValue::Number(t) => ConfigValue::Number(t.clone()),
            ConfigValue::Text(t) => ConfigValue::Text(t.clone()),
            ConfigValue::Structured(t) => ConfigValue::Structured(t.clone()),
        }
    }
}

/// A JSON document as read from a text.
#[derive(Clone, Debug, PartialEq, Eq)]
pub struct JsonDocument {
    /// The document's value.
    pub value: ConfigValue,
    /// Where the document is an object: its members with their values.
    /// Empty for any other document.
    pub members: Vec<(String, ConfigValue)>,
}

/// What a [`JsonDocument`] holds, as mathematical values.
pub struct DocumentView {
    pub value: ValueView,
    pub members: Seq<(Seq<char>, ValueView)>,
}

/// What a list of members holds, as mathematical values.
pub open spec fn member_views(members: Seq<(String, ConfigValue)>) -> Seq<
    (Seq<char>, ValueView),
> {
    Seq::new(members.len(), |i: int| (members[i].0@, members[i].1@))
}

impl View for JsonDocument {
    type V = DocumentView;

    open spec fn view(&self) -> DocumentView {
        DocumentView { value: self.value@, members: member_views(self.members@) }
    }
}

/// What a parse of a JSON text gives: the document or the parser's message.
pub open spec fn parsed_view(r: Result<JsonDocument, String>) -> Result<DocumentView, Seq<char>> {
    match r {
        Ok(d) => Ok(d@),
        Err(e) => Err(e@),
    }
}

/// The document that `serde_json` reads from a text, or its error message
/// where the text is not one JSON document.
pub uninterp spec fn json_document(text: Seq<char>) -> Result<DocumentView, Seq<char>>;

/// Parses `text` with `serde_json::from_str` into a `serde_json::Value` and
/// hands it over variant by variant: a number as its printed form, an array
/// or object as its compact JSON text, an error as its message. Of an
/// object it also hands over each member, its value in the same way. The
/// result is a function of the text alone; the contract names it and says
/// no more.
#[verifier::external_body]
fn parse_json(text: &str) -> (r: Result<JsonDocument, String>)
    ensures
        parsed_view(r) == json_document(text@),
{
    let convert = |v: Value| match v {
        Value::Null => ConfigValue::Null,
        Value::Bool(b) => ConfigValue::Bool(b),
        Value::Number(n) => ConfigValue::Number(n.to_string()),
        Value::String(s) => ConfigValue::Text(s),
        other => ConfigValue::Structured(other.to_string()),
    };
    let parsed = serde_json::from_str::<Value>(text).map_err(|e| e.to_string())?;
    let members = match &parsed {
        Value::Object(m) => m.iter().map(|(k, v)| (k.clone(), convert(v.clone()))).collect(),
        _ => Vec::new(),
    };
    Ok(JsonDocument { value: convert(parsed), members })
}

/// Reads `text` as one JSON document.
pub fn parse_document(text: &str) -> (r: Result<JsonDocument, String>)
    ensures
        parsed_view(r) == json_document(text@),
{
    parse_json(text)
}

/// Whether `c` is a decimal digit.
pub open spec fn is_digit(c: char) -> bool {
    '0' <= c && c <= '9'
}

/// Whether `c` is a sign.
pub open spec fn is_sign(c: char) -> bool {
    c == '+' || c == '-'
}

/// The end of the run of digits of `s` that starts at `i`.
pub open spec fn digits_end(s: Seq<char>, i: int) -> int
    decreases s.len() - i,
{
    if 0 <= i < s.len() && is_digit(s[i]) {
        digits_end(s, i + 1)
    } else {
        i
    }
}

/// Whether an exponent starts at `i` and runs to the end of `s`: the letter
/// `e` in either case, an optional sign, one digit or more.
pub open spec fn is_exponent_at(s: Seq<char>, i: int) -> bool {
    &&& 0 <= i < s.len()
    &&& (s[i] == 'e' || s[i] == 'E')
    &&& {
        let j = if i + 1 < s.len() && is_sign(s[i + 1]) {
            i + 2
        } else {
            i + 1
        };
        j < s.len() && digits_end(s, j) == s.len()
    }
}

/// Whether `s` is a finite decimal literal: an optional sign; digits, with
/// an optional dot among, before or after them, one digit at least; an
/// optional exponent.
pub open spec fn is_decimal_literal(s: Seq<char>) -> bool {
    let start: int = if s.len() > 0 && is_sign(s[0]) {
        1
    } else {
        0
    };
    let int_end = digits_end(s, start);
    let dotted = int_end < s.len() && s[int_end] == '.';
    let frac_end = if dotted {
        digits_end(s, int_end + 1)
    } else {
        int_end
    };
    let digits = if dotted {
        frac_end - start - 1
    } else {
        frac_end - start
    };
    digits >= 1 && (frac_end == s.len() || is_exponent_at(s, frac_end))
}

/// The value of a command-line token `raw`, given what a JSON parse of it
/// said: the JSON value where there is one; else a boolean for `true` or
/// `false`; else a number for a decimal literal; else the token as a string.
pub open spec fn coerced(raw: Seq<char>, json: Result<DocumentView, Seq<char>>) -> ValueView {
    match json {
        Ok(d) => d.value,
        Err(_) => if raw == seq!['t', 'r', 'u', 'e'] {
            ValueView::Bool(true)
        } else if raw == seq!['f', 'a', 'l', 's', 'e'] {
            ValueView::Bool(false)
        } else if is_decimal_literal(raw) {
            ValueView::Number(raw)
        } else {
            ValueView::Text(raw)
        },
    }
}

/// The value of the command-line token `raw`.
pub open spec fn coerced_token(raw: Seq<char>) -> ValueView {
    coerced(raw, json_document(raw))
}

/// The end of the run of digits of `s` that starts at `i`.
fn scan_digits(s: &Vec<char>, i: usize) -> (end: usize)
    requires
        i <= s.len(),
    ensures
        end == digits_end(s@, i as int),
        i <= end <= s.len(),
{
    let mut end: usize = i;
    while end < s.len() && '0' <= s[end] && s[end] <= '9'
        invariant
            i <= end <= s.len(),
            digits_end(s@, i as int) == digits_end(s@, end as int),
        decreases s.len() - end,
    {
        end += 1;
    }
    end
}

/// Tests whether an exponent starts at `i` and runs to the end of `s`.
fn exponent_at(s: &Vec<char>, i: usize) -> (r: bool)
    requires
        i < s.len(),
    ensures
        r == is_exponent_at(s@, i as int),
{
    if s[i] != 'e' && s[i] != 'E' {
        return false;
    }
    let mut j: usize = i + 1;
    if j < s.len() && (s[j] == '+' || s[j] == '-') {
        j += 1;
    }
    if j >= s.len() {
        return false;
    }
    scan_digits(s, j) == s.len()
}

/// Tests whether `s` is a finite decimal literal.
pub fn is_decimal(s: &Vec<char>) -> (r: bool)
    ensures
        r == is_decimal_literal(s@),
{
    let mut start: usize = 0;
    if s.len() > 0 && (s[0] == '+' || s[0] == '-') {
        start = 1;
    }
    let int_end = scan_digits(s, start);
    let mut frac_end: usize = int_end;
    let mut digits: usize = int_end - start;
    if int_end < s.len() && s[int_end] == '.' {
        frac_end = scan_digits(s, int_end + 1);
        digits = frac_end - start - 1;
    }
    if digits < 1 {
        return false;
    }
    if frac_end == s.len() {
        return true;
    }
    exponent_at(s, frac_end)
}

/// Tests whether `s` spells `word`.
fn spells(s: &Vec<char>, word: &str) -> (r: bool)
    ensures
        r == (s@ == word@),
{
    let w = chars_of(word);
    if s.len() != w.len() {
        return false;
    }
    let mut i: usize = 0;
    while i < s.len()
        invariant
            i <= s.len(),
            s.len() == w.len(),
            w@ == word@,
            forall|k: int| 0 <= k < i ==> s@[k] == w@[k],
        decreases s.len() - i,
    {
        if s[i] != w[i] {
            proof {
                assert(s@[i as int] != w@[i as int]);
            }
            return false;
        }
        i += 1;
    }
    proof {
        assert(s@ =~= w@);
    }
    true
}

/// Coerces the token `raw`, given the outcome `json` of parsing it as JSON:
/// the first of JSON value, boolean, number, string that fits.
pub fn coerce_with(raw: &str, json: Result<JsonDocument, String>) -> (v: ConfigValue)
    ensures
        v@ == coerced(raw@, parsed_view(json)),
{
    match json {
        Ok(document) => document.value,
        Err(_) => {
            let chars = chars_of(raw);
            proof {
                reveal_strlit("true");
                reveal_strlit("false");
                assert("true"@ =~= seq!['t', 'r', 'u', 'e']);
                assert("false"@ =~= seq!['f', 'a', 'l', 's', 'e']);
            }
            if spells(&chars, "true") {
                ConfigValue::Bool(true)
            } else if spells(&chars, "false") {
                ConfigValue::Bool(false)
            } else if is_decimal(&chars) {
                ConfigValue::Number(String::from_str(raw))
            } else {
                ConfigValue::Text(String::from_str(raw))
            }
        },
    }
}

/// Coerces the token `raw` into a value: it is parsed as JSON, and what the
/// parse says decides as [`coerced`] tells.
pub fn coerce(raw: &str) -> (v: ConfigValue)
    ensures
        v@ == coerced_token(raw@),
{
    coerce_with(raw, parse_json(raw))
}

} // verus!
