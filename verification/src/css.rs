//! Style sheets as values: rules, selectors, declarations and the values
//! that a property can take.

use vstd::prelude::*;
use crate::text::{decimal, decimal_text, str_eq};

pub mod parser;

verus! {

/// A CSS stylesheet containing multiple rules
#[derive(Debug, Clone)]
pub struct Stylesheet {
    pub rules: Vec<Rule>,
}

/// A CSS rule with selectors and declarations
#[derive(Debug, Clone)]
pub struct Rule {
    pub selectors: Vec<Selector>,
    pub declarations: Vec<Declaration>,
}

/// A CSS selector (simplified)
#[derive(Debug, Clone, PartialEq)]
pub enum Selector {
    Simple(SimpleSelector),
}

/// A simple selector (tag, class, or id)
#[derive(Debug, Clone, PartialEq)]
pub struct SimpleSelector {
    pub tag_name: Option<String>,
    pub id: Option<String>,
    pub classes: Vec<String>,
}

/// A CSS declaration (property: value)
#[derive(Debug, Clone)]
pub struct Declaration {
    pub name: String,
    pub value: Value,
}

/// CSS property values. Lengths, numbers and percentages are whole numbers
/// of the caller's unit.
#[derive(Debug, PartialEq)]
pub enum Value {
    Keyword(String),
    Length(i64, Unit),
    Color(Color),
    Number(i64),
    Percentage(i64),
}

/// CSS length units
#[derive(Debug, Clone, Copy, PartialEq, Eq, Structural)]
pub enum Unit {
    Px,
    Em,
    Rem,
    Percent,
}

/// RGBA color
#[derive(Debug, Clone, Copy, PartialEq, Eq, Structural)]
pub struct Color {
    pub r: u8,
    pub g: u8,
    pub b: u8,
    pub a: u8,
}

impl Color {
    pub fn new(r: u8, g: u8, b: u8, a: u8) -> (c: Color)
        ensures
            c == (Color { r, g, b, a }),
    {
        Color { r, g, b, a }
    }

    pub fn black() -> (c: Color)
        ensures
            c == (Color { r: 0, g: 0, b: 0, a: 255 }),
    {
        Color::new(0, 0, 0, 255)
    }

    pub fn white() -> (c: Color)
        ensures
            c == (Color { r: 255, g: 255, b: 255, a: 255 }),
    {
        Color::new(255, 255, 255, 255)
    }
}

impl Clone for Value {
    fn clone(&self) -> (copy: Value)
        ensures
            copy == *self,
    {
        match self {
            Value::Keyword(s) => Value::Keyword(s.clone()),
            Value::Length(n, unit) => Value::Length(*n, *unit),
            Value::Color(c) => Value::Color(*c),
            Value::Number(n) => Value::Number(*n),
            Value::Percentage(n) => Value::Percentage(*n),
        }
    }
}

impl Value {
    /// Whether the value is the keyword `word`.
    pub open spec fn is_word(self, word: Seq<char>) -> bool {
        match self {
            Value::Keyword(s) => s@ == word,
            _ => false,
        }
    }

    /// Whether the value is the keyword `word`.
    pub fn is_keyword(&self, word: &str) -> (r: bool)
        ensures
            r == self.is_word(word@),
    {
        match self {
            Value::Keyword(s) => crate::text::str_eq(s.as_str(), word),
            _ => false,
        }
    }

    /// The length in pixels: the number of a pixel length or of a bare
    /// number, and zero for every other value.
    pub open spec fn px(self) -> i64 {
        match self {
            Value::Length(n, Unit::Px) => n,
            Value::Number(n) => n,
            _ => 0,
        }
    }

    /// The number of a pixel length, for no other value.
    pub open spec fn pixel_length(self) -> Option<i64> {
        match self {
            Value::Length(n, Unit::Px) => Some(n),
            _ => None,
        }
    }
}

impl Stylesheet {
    pub fn new(rules: Vec<Rule>) -> (sheet: Stylesheet)
        ensures
            sheet.rules == rules,
    {
        Stylesheet { rules }
    }
}

/// How specific a selector is: the number of ids, of classes and of tag
/// names in it, compared in that order.
#[derive(Debug, Clone, Copy, PartialEq, Eq, PartialOrd, Ord)]
pub struct Specificity(pub usize, pub usize, pub usize);

/// The specificity of a selector: one for its id where it has one, the
/// number of its classes, and one for its tag name where it has one.
pub open spec fn specificity_of(selector: Selector) -> Specificity {
    match selector {
        Selector::Simple(simple) => Specificity(
            if simple.id.is_some() {
                1
            } else {
                0
            },
            simple.classes@.len() as usize,
            if simple.tag_name.is_some() {
                1
            } else {
                0
            },
        ),
    }
}

impl Specificity {
    /// Whether `self` comes before `other` or is the same: ids count first,
    /// then classes, then tag names.
    pub open spec fn at_most(self, other: Specificity) -> bool {
        self.0 < other.0 || (self.0 == other.0 && (self.1 < other.1 || (self.1 == other.1 && self.2
            <= other.2)))
    }

    /// Whether `self` comes before `other` or is the same.
    pub fn is_at_most(&self, other: &Specificity) -> (r: bool)
        ensures
            r == self.at_most(*other),
    {
        self.0 < other.0 || (self.0 == other.0 && (self.1 < other.1 || (self.1 == other.1 && self.2
            <= other.2)))
    }
}

/// Calculate specificity for selector matching priority
pub fn specificity(selector: &Selector) -> (s: Specificity)
    ensures
        s == specificity_of(*selector),
{
    match selector {
        Selector::Simple(simple) => {
            let id: usize = if simple.id.is_some() {
                1
            } else {
                0
            };
            let class = simple.classes.len();
            let tag: usize = if simple.tag_name.is_some() {
                1
            } else {
                0
            };
            Specificity(id, class, tag)
        },
    }
}

/// The text of a value as it stands in a style sheet: a keyword as it
/// is, a length as its number and unit, a color as `rgba(..)` with its
/// four parts, a number as it is, a percentage with a percent sign.
pub open spec fn value_text(value: Value) -> Seq<char> {
    match value {
        Value::Keyword(s) => s@,
        Value::Length(n, Unit::Px) => decimal(n as int) + "px"@,
        Value::Length(n, Unit::Em) => decimal(n as int) + "em"@,
        Value::Length(n, Unit::Rem) => decimal(n as int) + "rem"@,
        Value::Length(n, Unit::Percent) => decimal(n as int) + "%"@,
        Value::Color(c) => "rgba("@ + decimal(c.r as int) + ", "@ + decimal(c.g as int) + ", "@
            + decimal(c.b as int) + ", "@ + decimal(c.a as int) + ")"@,
        Value::Number(n) => decimal(n as int),
        Value::Percentage(n) => decimal(n as int) + "%"@,
    }
}

impl Value {
    /// The text of the value as it stands in a style sheet.
    pub fn to_string(&self) -> (text: String)
        ensures
            text@ == value_text(*self),
    {
        match self {
            Value::Keyword(s) => s.clone(),
            Value::Length(n, Unit::Px) => decimal_text(*n).concat("px"),
            Value::Length(n, Unit::Em) => decimal_text(*n).concat("em"),
            Value::Length(n, Unit::Rem) => decimal_text(*n).concat("rem"),
            Value::Length(n, Unit::Percent) => decimal_text(*n).concat("%"),
            Value::Color(c) => String::from_str("rgba(").concat(
                decimal_text(c.r as i64).as_str(),
            ).concat(", ").concat(decimal_text(c.g as i64).as_str()).concat(", ").concat(
                decimal_text(c.b as i64).as_str(),
            ).concat(", ").concat(decimal_text(c.a as i64).as_str()).concat(")"),
            Value::Number(n) => decimal_text(*n),
            Value::Percentage(n) => decimal_text(*n).concat("%"),
        }
    }
}

/// The unit that a name stands for: `px`, `em`, `rem` or `%`.
pub open spec fn unit_of(name: Seq<char>) -> Option<Unit> {
    if name == "px"@ {
        Some(Unit::Px)
    } else if name == "em"@ {
        Some(Unit::Em)
    } else if name == "rem"@ {
        Some(Unit::Rem)
    } else if name == "%"@ {
        Some(Unit::Percent)
    } else {
        None
    }
}

impl Unit {
    /// The unit that a name stands for.
    pub fn from_name(name: &str) -> (unit: Option<Unit>)
        ensures
            unit == unit_of(name@),
    {
        if str_eq(name, "px") {
            Some(Unit::Px)
        } else if str_eq(name, "em") {
            Some(Unit::Em)
        } else if str_eq(name, "rem") {
            Some(Unit::Rem)
        } else if str_eq(name, "%") {
            Some(Unit::Percent)
        } else {
            None
        }
    }
}

/// The value of a hexadecimal digit.
pub open spec fn hex_digit(c: char) -> Option<int> {
    if '0' <= c <= '9' {
        Some(c as int - '0' as int)
    } else if 'a' <= c <= 'f' {
        Some(c as int - 'a' as int + 10)
    } else if 'A' <= c <= 'F' {
        Some(c as int - 'A' as int + 10)
    } else {
        None
    }
}

/// The number that two characters are in hexadecimal: two digits, or a
/// plus sign and one digit.
pub open spec fn hex_pair(high: char, low: char) -> Option<u8> {
    match (hex_digit(high), hex_digit(low)) {
        (Some(h), Some(l)) => Some((h * 16 + l) as u8),
        (None, Some(l)) => if high == '+' {
            Some(l as u8)
        } else {
            None
        },
        _ => None,
    }
}

/// The number of number signs at the start of a text, among its first
/// `k` characters.
pub open spec fn leading_signs(text: Seq<char>, k: int) -> int
    decreases k,
{
    if k <= 0 || k > text.len() {
        0
    } else if leading_signs(text, k - 1) == k - 1 && text[k - 1] == '#' {
        k
    } else {
        leading_signs(text, k - 1)
    }
}

/// The color that a hexadecimal code stands for, number signs before it
/// left out: three digits, each standing twice, or three pairs; always
/// opaque. None for every other text.
pub open spec fn hex_color(hex: Seq<char>) -> Option<Color> {
    let code = hex.subrange(leading_signs(hex, hex.len() as int), hex.len() as int);
    if code.len() == 3 {
        match (hex_pair(code[0], code[0]), hex_pair(code[1], code[1]), hex_pair(code[2], code[2])) {
            (Some(r), Some(g), Some(b)) => Some(Color { r, g, b, a: 255 }),
            _ => None,
        }
    } else if code.len() == 6 {
        match (hex_pair(code[0], code[1]), hex_pair(code[2], code[3]), hex_pair(code[4], code[5])) {
            (Some(r), Some(g), Some(b)) => Some(Color { r, g, b, a: 255 }),
            _ => None,
        }
    } else {
        None
    }
}

/// The value of a hexadecimal digit.
fn read_hex_digit(c: char) -> (value: Option<u8>)
    ensures
        match value {
            Some(v) => hex_digit(c) == Some(v as int) && v < 16,
            None => hex_digit(c).is_none(),
        },
{
    let code = c as u32;
    if 48 <= code && code <= 57 {
        Some((code - 48) as u8)
    } else if 97 <= code && code <= 102 {
        Some((code - 97 + 10) as u8)
    } else if 65 <= code && code <= 70 {
        Some((code - 65 + 10) as u8)
    } else {
        None
    }
}

/// The number that two characters are in hexadecimal.
fn read_hex_pair(high: char, low: char) -> (value: Option<u8>)
    ensures
        value == hex_pair(high, low),
{
    match read_hex_digit(low) {
        Some(l) => match read_hex_digit(high) {
            Some(h) => Some(h * 16 + l),
            None => if high == '+' {
                Some(l)
            } else {
                None
            },
        },
        None => None,
    }
}

/// The color value that a hexadecimal code stands for.
pub fn parse_hex_color(hex: &str) -> (color: Result<Value, ()>)
    ensures
        match color {
            Ok(value) => hex_color(hex@) == Some(value->Color_0) && value is Color,
            Err(_) => hex_color(hex@).is_none(),
        },
{
    let count = hex.unicode_len();
    let mut start: usize = 0;
    while start < count && hex.get_char(start) == '#'
        invariant
            start <= count,
            count == hex@.len(),
            leading_signs(hex@, start as int) == start,
        decreases count - start,
    {
        start = start + 1;
    }
    proof {
        lemma_leading_signs(hex@, start as int, count as int);
        let code = hex@.subrange(start as int, count as int);
        assert(forall|i: int| 0 <= i < code.len() ==> code[i] == hex@[start + i]);
    }
    let length = count - start;
    if length == 3 {
        let r = hex.get_char(start);
        let g = hex.get_char(start + 1);
        let b = hex.get_char(start + 2);
        match (read_hex_pair(r, r), read_hex_pair(g, g), read_hex_pair(b, b)) {
            (Some(r), Some(g), Some(b)) => Ok(Value::Color(Color::new(r, g, b, 255))),
            _ => Err(()),
        }
    } else if length == 6 {
        match (
            read_hex_pair(hex.get_char(start), hex.get_char(start + 1)),
            read_hex_pair(hex.get_char(start + 2), hex.get_char(start + 3)),
            read_hex_pair(hex.get_char(start + 4), hex.get_char(start + 5)),
        ) {
            (Some(r), Some(g), Some(b)) => Ok(Value::Color(Color::new(r, g, b, 255))),
            _ => Err(()),
        }
    } else {
        Err(())
    }
}

/// Behind the number signs at the start stands a character that is none,
/// or nothing: looking at more characters finds no more of them.
proof fn lemma_leading_signs(text: Seq<char>, start: int, k: int)
    requires
        0 <= start <= k <= text.len(),
        leading_signs(text, start) == start,
        start == text.len() || text[start] != '#',
    ensures
        leading_signs(text, k) == start,
    decreases k - start,
{
    if start < k {
        lemma_leading_signs(text, start, k - 1);
    }
}

} // verus!
