//! The shape of a typed record, and the decoding of single values into the
//! kinds that its fields ask for.

use crate::text::chars_of;
use crate::value::{is_digit, ConfigValue, ValueView};
use vstd::prelude::*;

verus! {

/// The kind of value that a field of a record holds.
#[derive(Clone, Copy, Debug, PartialEq, Eq, Structural)]
pub enum FieldKind {
    /// A string.
    Text,
    /// A boolean.
    Bool,
    /// An integer from 0 to 2^64 - 1.
    Unsigned,
    /// An integer from -2^63 to 2^63 - 1.
    Signed,
    /// Any number, kept as its decimal text.
    Number,
    /// An array or an object, kept as its JSON text.
    Structured,
}

/// One field of a record's shape.
#[derive(Clone, Debug, PartialEq, Eq)]
pub struct FieldSpec {
    /// The field's name.
    pub name: String,
    /// The kind of value that it holds.
    pub kind: FieldKind,
    /// Whether the field must be set.
    pub required: bool,
}

/// A value decoded into the kind that a field asks for.
#[derive(Clone, Debug, PartialEq, Eq)]
pub enum TypedValue {
    Text(String),
    Bool(bool),
    Unsigned(u64),
    Signed(i64),
    Number(String),
    Structured(String),
}

/// What a [`TypedValue`] holds, as mathematical values.
pub enum TypedView {
    Text(Seq<char>),
    Bool(bool),
    Unsigned(u64),
    Signed(i64),
    Number(Seq<char>),
    Structured(Seq<char>),
}

impl View for TypedValue {
    type V = TypedView;

    open spec fn view(&self) -> TypedView {
        match self {
            TypedValue::Text(t) => TypedView::Text(t@),
            TypedValue::Bool(b) => TypedView::Bool(*b),
            TypedValue::Unsigned(n) => TypedView::Unsigned(*n),
            TypedValue::Signed(n) => TypedView::Signed(*n),
            TypedValue::Number(t) => TypedView::Number(t@),
            TypedValue::Structured(t) => TypedView::Structured(t@),
        }
    }
}

/// The view of an optional typed value.
pub open spec fn typed_view(v: Option<TypedValue>) -> Option<TypedView> {
    match v {
        Some(t) => Some(t@),
        None => None,
    }
}

/// The number that the digits `s` spell in base ten.
pub open spec fn decimal_value(s: Seq<char>) -> nat
    decreases s.len(),
{
    if s.len() == 0 {
        0
    } else {
        decimal_value(s.drop_last()) * 10 + ((s.last() as u8) - ('0' as u8)) as nat
    }
}

/// Whether `s` is the usual spelling of a natural number: digits only, one
/// at least, and no leading zero but for zero itself.
pub open spec fn is_natural_literal(s: Seq<char>) -> bool {
    &&& s.len() >= 1
    &&& forall|i: int| 0 <= i < s.len() ==> is_digit(#[trigger] s[i])
    &&& (s.len() == 1 || s[0] != '0')
}

/// The integer that `s` spells, where it spells one: a natural literal, or
/// a minus sign and a natural literal.
pub open spec fn integer_literal(s: Seq<char>) -> Option<int> {
    if is_natural_literal(s) {
        Some(decimal_value(s) as int)
    } else if s.len() >= 1 && s[0] == '-' && is_natural_literal(s.skip(1)) {
        Some(-(decimal_value(s.skip(1)) as int))
    } else {
        None
    }
}

/// The unsigned 64-bit integer that the number text `s` spells, if any: a
/// natural literal in range.
pub open spec fn unsigned_of(s: Seq<char>) -> Option<u64> {
    if is_natural_literal(s) && decimal_value(s) <= u64::MAX {
        Some(decimal_value(s) as u64)
    } else {
        None
    }
}

/// The signed 64-bit integer that the number text `s` spells, if any: an
/// integer literal in range.
pub open spec fn signed_of(s: Seq<char>) -> Option<i64> {
    match integer_literal(s) {
        Some(n) => if i64::MIN <= n <= i64::MAX {
            Some(n as i64)
        } else {
            None
        },
        None => None,
    }
}

/// The typed value that `v` gives for a field of kind `kind`, or `None`
/// where `v` is of another kind: a string for `Text`, a boolean for `Bool`,
/// a number whose text spells an integer in range for `Unsigned` and
/// `Signed`, any number for `Number`, an array or object for `Structured`.
pub open spec fn decoded_value(kind: FieldKind, v: ValueView) -> Option<TypedView> {
    match (kind, v) {
        (FieldKind::Text, ValueView::Text(t)) => Some(TypedView::Text(t)),
        (FieldKind::Bool, ValueView::Bool(b)) => Some(TypedView::Bool(b)),
        (FieldKind::Unsigned, ValueView::Number(t)) => match unsigned_of(t) {
            Some(n) => Some(TypedView::Unsigned(n)),
            None => None,
        },
        (FieldKind::Signed, ValueView::Number(t)) => match signed_of(t) {
            Some(n) => Some(TypedView::Signed(n)),
            None => None,
        },
        (FieldKind::Number, ValueView::Number(t)) => Some(TypedView::Number(t)),
        (FieldKind::Structured, ValueView::Structured(t)) => Some(TypedView::Structured(t)),
        _ => None,
    }
}

/// A longer run of digits spells no smaller a number than its beginning.
proof fn lemma_decimal_grows(s: Seq<char>, i: int)
    requires
        0 <= i <= s.len(),
    ensures
        decimal_value(s.subrange(0, i)) <= decimal_value(s),
    decreases s.len() - i,
{
    if i < s.len() {
        lemma_decimal_grows(s, i + 1);
        let longer = s.subrange(0, i + 1);
        assert(longer.drop_last() =~= s.subrange(0, i));
    } else {
        assert(s.subrange(0, i) =~= s);
    }
}

/// Reads the natural number that `s` spells from index `from` on, where
/// those characters are a natural literal whose value fits 64 bits.
fn parse_natural(s: &Vec<char>, from: usize) -> (r: Option<u64>)
    requires
        from <= s.len(),
    ensures
        r is Some == (is_natural_literal(s@.skip(from as int)) && decimal_value(
            s@.skip(from as int),
        ) <= u64::MAX),
        r is Some ==> r->0 == decimal_value(s@.skip(from as int)),
{
    let ghost digits = s@.skip(from as int);
    if from == s.len() {
        return None;
    }
    if s[from] == '0' && s.len() - from > 1 {
        proof {
            assert(digits[0] == '0');
        }
        return None;
    }
    let mut acc: u64 = 0;
    let mut i: usize = from;
    proof {
        assert(digits.subrange(0, 0) =~= Seq::<char>::empty());
    }
    while i < s.len()
        invariant
            from <= i <= s.len(),
            digits == s@.skip(from as int),
            forall|k: int| 0 <= k < i - from ==> is_digit(#[trigger] digits[k]),
            acc == decimal_value(digits.subrange(0, i - from)),
        decreases s.len() - i,
    {
        let c: char = s[i];
        proof {
            assert(digits[i - from] == c);
        }
        if !('0' <= c && c <= '9') {
            return None;
        }
        let d: u64 = ((c as u8) - ('0' as u8)) as u64;
        proof {
            let longer = digits.subrange(0, i - from + 1);
            assert(longer.drop_last() =~= digits.subrange(0, i - from));
            assert(longer.last() == c);
            assert(decimal_value(longer) == acc * 10 + d);
            lemma_decimal_grows(digits, i - from + 1);
        }
        if acc > (u64::MAX - d) / 10 {
            return None;
        }
        acc = acc * 10 + d;
        i += 1;
    }
    proof {
        assert(digits.subrange(0, i - from) =~= digits);
    }
    Some(acc)
}

/// Reads an unsigned 64-bit integer from a number's text.
pub fn parse_unsigned(text: &str) -> (r: Option<u64>)
    ensures
        r == unsigned_of(text@),
{
    let chars = chars_of(text);
    proof {
        assert(chars@.skip(0) =~= chars@);
    }
    parse_natural(&chars, 0)
}

/// Reads a signed 64-bit integer from a number's text.
pub fn parse_signed(text: &str) -> (r: Option<i64>)
    ensures
        r == signed_of(text@),
{
    let chars = chars_of(text);
    proof {
        assert(chars@.skip(0) =~= chars@);
    }
    if chars.len() >= 1 && chars[0] == '-' {
        proof {
            assert(!is_digit(chars@[0]));
            assert(!is_natural_literal(chars@));
        }
        match parse_natural(&chars, 1) {
            Some(n) => if n <= 0x7fff_ffff_ffff_ffff {
                Some(-(n as i64))
            } else if n == 0x8000_0000_0000_0000 {
                Some(i64::MIN)
            } else {
                None
            },
            None => None,
        }
    } else {
        match parse_natural(&chars, 0) {
            Some(n) => if n <= 0x7fff_ffff_ffff_ffff {
                Some(n as i64)
            } else {
                None
            },
            None => None,
        }
    }
}

/// Decodes `value` into the kind `kind`, as [`decoded_value`] says.
pub fn decode_value(kind: FieldKind, value: &ConfigValue) -> (r: Option<TypedValue>)
    ensures
        typed_view(r) == decoded_value(kind, value@),
{
    match (kind, value) {
        (FieldKind::Text, ConfigValue::Text(t)) => Some(TypedValue::Text(t.clone())),
        (FieldKind::Bool, ConfigValue::Bool(b)) => Some(TypedValue::Bool(*b)),
        (FieldKind::Unsigned, ConfigValue::Number(t)) => match parse_unsigned(t.as_str()) {
            Some(n) => Some(TypedValue::Unsigned(n)),
            None => None,
        },
        (FieldKind::Signed, ConfigValue::Number(t)) => match parse_signed(t.as_str()) {
            Some(n) => Some(TypedValue::Signed(n)),
            None => None,
        },
        (FieldKind::Number, ConfigValue::Number(t)) => Some(TypedValue::Number(t.clone())),
        (FieldKind::Structured, ConfigValue::Structured(t)) => Some(
            TypedValue::Structured(t.clone()),
        ),
        _ => None,
    }
}

} // verus!
