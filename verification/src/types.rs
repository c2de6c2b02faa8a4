//! The type system for node pins and property values: pin data types, node
//! classifications, literal property values, and their canonical textual
//! forms used by code generation.
//!
//! Numeric property values are held as exact decimal values (sign, integer
//! part, fraction digits), so that canonicalization is a total, verified
//! function of the value.

use vstd::prelude::*;

use crate::text::{chars_to_string, dec_digits, u64_to_dec_string};

verus! {

/// Type information for typed pins: a type name in the target language's
/// syntax (e.g. "i64", "String", "(f32, f32)").
#[derive(Debug, Clone)]
pub struct TypeInfo {
    /// The type's name in the target language.
    pub type_string: String,
}

impl TypeInfo {
    /// Creates a new type info from a type string.
    pub fn new(type_string: &str) -> (r: TypeInfo)
        ensures
            r.type_string@ == type_string@,
    {
        TypeInfo { type_string: type_string.to_owned() }
    }
}

impl PartialEq for TypeInfo {
    fn eq(&self, other: &TypeInfo) -> (r: bool) {
        self.type_string == other.type_string
    }
}

impl vstd::std_specs::cmp::PartialEqSpecImpl for TypeInfo {
    open spec fn obeys_eq_spec() -> bool {
        true
    }

    open spec fn eq_spec(&self, other: &TypeInfo) -> bool {
        self.type_string@ == other.type_string@
    }
}

impl<'a> From<&'a str> for TypeInfo {
    fn from(s: &'a str) -> (r: TypeInfo) {
        TypeInfo::new(s)
    }
}

impl<'a> vstd::std_specs::convert::FromSpecImpl<&'a str> for TypeInfo {
    open spec fn obeys_from_spec() -> bool {
        false
    }

    open spec fn from_spec(s: &'a str) -> TypeInfo {
        arbitrary()
    }
}

impl From<String> for TypeInfo {
    fn from(s: String) -> (r: TypeInfo) {
        TypeInfo { type_string: s }
    }
}

impl vstd::std_specs::convert::FromSpecImpl<String> for TypeInfo {
    open spec fn obeys_from_spec() -> bool {
        true
    }

    open spec fn from_spec(s: String) -> TypeInfo {
        TypeInfo { type_string: s }
    }
}

/// Data type carried by a pin.
#[derive(Debug, Clone)]
pub enum DataType {
    /// Execution flow pin: carries no data, only control flow.
    Execution,
    /// Typed data pin with an explicit type name.
    Typed(TypeInfo),
    /// Numeric value.
    Number,
    /// Text value.
    String,
    /// Boolean value.
    Boolean,
    /// 2D vector (x, y).
    Vector2,
    /// 3D vector (x, y, z).
    Vector3,
    /// RGBA color (r, g, b, a).
    Color,
    /// Wildcard type that accepts any data.
    Any,
}

impl PartialEq for DataType {
    fn eq(&self, other: &DataType) -> (r: bool) {
        match (self, other) {
            (DataType::Execution, DataType::Execution) => true,
            (DataType::Typed(a), DataType::Typed(b)) => a.type_string == b.type_string,
            (DataType::Number, DataType::Number) => true,
            (DataType::String, DataType::String) => true,
            (DataType::Boolean, DataType::Boolean) => true,
            (DataType::Vector2, DataType::Vector2) => true,
            (DataType::Vector3, DataType::Vector3) => true,
            (DataType::Color, DataType::Color) => true,
            (DataType::Any, DataType::Any) => true,
            _ => false,
        }
    }
}

impl vstd::std_specs::cmp::PartialEqSpecImpl for DataType {
    open spec fn obeys_eq_spec() -> bool {
        true
    }

    open spec fn eq_spec(&self, other: &DataType) -> bool {
        match (self, other) {
            (DataType::Execution, DataType::Execution) => true,
            (DataType::Typed(a), DataType::Typed(b)) => a.type_string@ == b.type_string@,
            (DataType::Number, DataType::Number) => true,
            (DataType::String, DataType::String) => true,
            (DataType::Boolean, DataType::Boolean) => true,
            (DataType::Vector2, DataType::Vector2) => true,
            (DataType::Vector3, DataType::Vector3) => true,
            (DataType::Color, DataType::Color) => true,
            (DataType::Any, DataType::Any) => true,
            _ => false,
        }
    }
}

/// Node type classification, which determines how a node is treated during
/// analysis and code generation.
#[allow(non_camel_case_types)]
#[derive(Debug, Clone, Copy, PartialEq, Eq, Structural)]
pub enum NodeTypes {
    /// Pure function node: no side effects, no execution pins; eligible for
    /// dependency-ordered inlining.
    pure,
    /// Function node with side effects and execution pins.
    fn_,
    /// Control flow node with one or more outgoing execution branches.
    control_flow,
    /// Event node: an entry point for execution.
    event,
}

/// An exact decimal number: sign, integer part, and fraction digits.
///
/// `fraction` holds the digits after the decimal point; when it is empty the
/// value is whole and canonicalizes without a decimal point.
#[derive(Debug, Clone)]
pub struct NumberValue {
    /// Whether the value is negative.
    pub negative: bool,
    /// The integer part's magnitude.
    pub integer: u64,
    /// The digits after the decimal point, empty for a whole number.
    pub fraction: String,
}

/// The canonical text of a number value: whole values print without a
/// decimal point, a minus sign appears only on nonzero or fractional values.
pub open spec fn number_text(n: NumberValue) -> Seq<char> {
    if n.fraction@.len() == 0 {
        if n.negative && n.integer != 0 {
            "-"@ + dec_digits(n.integer as nat)
        } else {
            dec_digits(n.integer as nat)
        }
    } else {
        (if n.negative {
            "-"@
        } else {
            Seq::<char>::empty()
        }) + dec_digits(n.integer as nat) + "."@ + n.fraction@
    }
}

impl NumberValue {
    /// A whole number value.
    pub fn from_i64(v: i64) -> (r: NumberValue)
        ensures
            r.negative == (v < 0),
            r.integer == (if v >= 0 {
                v as int
            } else {
                -(v as int)
            }),
            r.fraction@.len() == 0,
    {
        if v >= 0 {
            NumberValue { negative: false, integer: v as u64, fraction: String::new() }
        } else {
            let m: i128 = -(v as i128);
            assert(0 < m <= 0x8000_0000_0000_0000i128);
            let magnitude: u64 = m as u64;
            NumberValue { negative: true, integer: magnitude, fraction: String::new() }
        }
    }

    /// A decimal value with fraction digits after the point.
    pub fn with_fraction(negative: bool, integer: u64, fraction: &str) -> (r: NumberValue)
        ensures
            r.negative == negative,
            r.integer == integer,
            r.fraction@ == fraction@,
    {
        NumberValue { negative, integer, fraction: fraction.to_owned() }
    }

    /// The canonical text of this value.
    pub fn text(&self) -> (r: String)
        ensures
            r@ == number_text(*self),
    {
        let r = if self.fraction.as_str().is_empty() {
            if self.negative && self.integer != 0 {
                String::from_str("-").concat(u64_to_dec_string(self.integer).as_str())
            } else {
                u64_to_dec_string(self.integer)
            }
        } else {
            let sign = if self.negative {
                String::from_str("-")
            } else {
                String::new()
            };
            sign.concat(u64_to_dec_string(self.integer).as_str()).concat(".").concat(
                self.fraction.as_str(),
            )
        };
        proof {
            assert(r@ =~= number_text(*self));
        }
        r
    }
}

/// Property value types for node configuration: constant values stored
/// directly on nodes.
#[derive(Debug, Clone)]
pub enum PropertyValue {
    /// Text value.
    String(String),
    /// Numeric value.
    Number(NumberValue),
    /// Boolean flag.
    Boolean(bool),
    /// 2D vector (x, y).
    Vector2(NumberValue, NumberValue),
    /// 3D vector (x, y, z).
    Vector3(NumberValue, NumberValue, NumberValue),
    /// RGBA color (r, g, b, a).
    Color(NumberValue, NumberValue, NumberValue, NumberValue),
}

/// How one character is escaped inside a quoted string literal.
pub open spec fn escape_char(c: char) -> Seq<char> {
    if c == '"' {
        seq!['\\', '"']
    } else if c == '\\' {
        seq!['\\', '\\']
    } else if c == '\n' {
        seq!['\\', 'n']
    } else if c == '\t' {
        seq!['\\', 't']
    } else if c == '\r' {
        seq!['\\', 'r']
    } else {
        seq![c]
    }
}

/// The escaped form of a character sequence.
pub open spec fn escape_seq(s: Seq<char>) -> Seq<char>
    decreases s.len(),
{
    if s.len() == 0 {
        Seq::<char>::empty()
    } else {
        escape_seq(s.drop_last()) + escape_char(s.last())
    }
}

/// The canonical text of a property value: strings are quote-escaped, whole
/// numbers print without a decimal point, vectors and colors print as
/// parenthesized tuples, booleans print as `true`/`false`.
pub open spec fn property_text(v: PropertyValue) -> Seq<char> {
    match v {
        PropertyValue::String(s) => "\""@ + escape_seq(s@) + "\""@,
        PropertyValue::Number(n) => number_text(n),
        PropertyValue::Boolean(b) => if b {
            "true"@
        } else {
            "false"@
        },
        PropertyValue::Vector2(x, y) => "("@ + number_text(x) + ", "@ + number_text(y) + ")"@,
        PropertyValue::Vector3(x, y, z) => "("@ + number_text(x) + ", "@ + number_text(y) + ", "@
            + number_text(z) + ")"@,
        PropertyValue::Color(r, g, b, a) => "("@ + number_text(r) + ", "@ + number_text(g) + ", "@
            + number_text(b) + ", "@ + number_text(a) + ")"@,
    }
}

/// Escapes a string for embedding in a double-quoted literal.
fn escape_string(s: &str) -> (r: String)
    ensures
        r@ == escape_seq(s@),
{
    let chars = crate::text::str_to_chars(s);
    let n = chars.len();
    let mut out: Vec<char> = Vec::new();
    let mut i: usize = 0;
    while i < n
        invariant
            n == chars@.len(),
            chars@ == s@,
            0 <= i <= n,
            out@ =~= escape_seq(s@.subrange(0, i as int)),
        decreases n - i,
    {
        let c = chars[i];
        if c == '"' {
            out.push('\\');
            out.push('"');
        } else if c == '\\' {
            out.push('\\');
            out.push('\\');
        } else if c == '\n' {
            out.push('\\');
            out.push('n');
        } else if c == '\t' {
            out.push('\\');
            out.push('t');
        } else if c == '\r' {
            out.push('\\');
            out.push('r');
        } else {
            out.push(c);
        }
        proof {
            assert(s@.subrange(0, i + 1 as int).drop_last() =~= s@.subrange(0, i as int));
            assert(s@.subrange(0, i + 1 as int).last() == s@[i as int]);
            assert(out@ =~= escape_seq(s@.subrange(0, i + 1 as int)));
        }
        i = i + 1;
    }
    proof {
        assert(s@.subrange(0, n as int) =~= s@);
    }
    chars_to_string(&out)
}

/// Converts a property value to its canonical literal text.
pub fn property_value_to_string(value: &PropertyValue) -> (r: String)
    ensures
        r@ == property_text(*value),
{
    let r = match value {
        PropertyValue::String(s) => {
            String::from_str("\"").concat(escape_string(s.as_str()).as_str()).concat("\"")
        },
        PropertyValue::Number(n) => n.text(),
        PropertyValue::Boolean(b) => {
            if *b {
                String::from_str("true")
            } else {
                String::from_str("false")
            }
        },
        PropertyValue::Vector2(x, y) => {
            String::from_str("(").concat(x.text().as_str()).concat(", ").concat(
                y.text().as_str(),
            ).concat(")")
        },
        PropertyValue::Vector3(x, y, z) => {
            String::from_str("(").concat(x.text().as_str()).concat(", ").concat(
                y.text().as_str(),
            ).concat(", ").concat(z.text().as_str()).concat(")")
        },
        PropertyValue::Color(r, g, b, a) => {
            String::from_str("(").concat(r.text().as_str()).concat(", ").concat(
                g.text().as_str(),
            ).concat(", ").concat(b.text().as_str()).concat(", ").concat(a.text().as_str()).concat(
                ")",
            )
        },
    };
    proof {
        assert(r@ =~= property_text(*value));
    }
    r
}

/// 2D position in visual editor space, in whole editor units.
#[derive(Debug, Clone, Copy)]
pub struct Position {
    /// X coordinate.
    pub x: i64,
    /// Y coordinate.
    pub y: i64,
}

impl Position {
    /// Creates a new position with the given coordinates.
    pub fn new(x: i64, y: i64) -> (r: Position)
        ensures
            r.x == x,
            r.y == y,
    {
        Position { x, y }
    }

    /// The origin position (0, 0).
    pub fn zero() -> (r: Position)
        ensures
            r.x == 0,
            r.y == 0,
    {
        Position { x: 0, y: 0 }
    }
}

impl Default for Position {
    fn default() -> (r: Position)
        ensures
            r.x == 0,
            r.y == 0,
    {
        Position::zero()
    }
}

} // verus!
