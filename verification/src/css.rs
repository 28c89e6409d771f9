//! Stylesheet data model: rules, selectors, declarations and property values,
//! together with selector specificity, plus the stylesheet text parser.

use vstd::prelude::*;

use crate::util::push_char;
use crate::util::str_eq;

verus! {

/// Pixel lengths are carried as whole pixels in a signed 64-bit count.
/// Negative values are permitted and propagate through layout.
pub type Px = i64;

/// An ordered list of rules; later rules win cascade ties.
pub struct StyleSheet {
    pub rules: Vec<Rule>,
}

/// Several selectors sharing one ordered declaration list.
pub struct Rule {
    pub selectors: Vec<Selector>,
    pub declarations: Vec<Declaration>,
}

/// A selector; only simple selectors are supported.
pub enum Selector {
    Simple(SimpleSelector),
}

/// Specificity triple: (id present, class count, tag present), compared
/// lexicographically.
pub type Specificity = (usize, usize, usize);

/// Optional tag name, optional id, and a set of required class names.
pub struct SimpleSelector {
    pub tag_name: Option<String>,
    pub id: Option<String>,
    pub class: Vec<String>,
}

/// One `name: value` pair.
pub struct Declaration {
    pub name: String,
    pub value: Value,
}

/// A property value: keyword, pixel length, or color.
pub enum Value {
    Keyword(String),
    Length(Px, Unit),
    ColorValue(Color),
}

/// Length units; only pixels are supported.
#[derive(Clone, Copy, PartialEq, Eq, Structural)]
pub enum Unit {
    Px,
}

/// An RGBA color with 8-bit channels.
#[derive(Clone, Copy, PartialEq, Eq, Structural)]
pub struct Color {
    pub r: u8,
    pub g: u8,
    pub b: u8,
    pub a: u8,
}

// --- mathematical views -----------------------------------------------------

/// View of a `Value`: strings become character sequences.
pub enum ValueV {
    Keyword(Seq<char>),
    Length(Px, Unit),
    ColorValue(Color),
}

/// View of a `SimpleSelector`.
pub struct SimpleSelectorV {
    pub tag_name: Option<Seq<char>>,
    pub id: Option<Seq<char>>,
    pub class: Seq<Seq<char>>,
}

/// View of a `Selector`.
pub enum SelectorV {
    Simple(SimpleSelectorV),
}

/// View of a `Rule`.
pub struct RuleV {
    pub selectors: Seq<SelectorV>,
    pub declarations: Seq<(Seq<char>, ValueV)>,
}

/// View of a `StyleSheet`.
pub struct StyleSheetV {
    pub rules: Seq<RuleV>,
}

impl View for Value {
    type V = ValueV;

    open spec fn view(&self) -> ValueV {
        match self {
            Value::Keyword(s) => ValueV::Keyword(s@),
            Value::Length(px, u) => ValueV::Length(*px, *u),
            Value::ColorValue(c) => ValueV::ColorValue(*c),
        }
    }
}

impl View for SimpleSelector {
    type V = SimpleSelectorV;

    open spec fn view(&self) -> SimpleSelectorV {
        SimpleSelectorV {
            tag_name: match self.tag_name {
                Option::Some(ref s) => Option::Some(s@),
                Option::None => Option::None,
            },
            id: match self.id {
                Option::Some(ref s) => Option::Some(s@),
                Option::None => Option::None,
            },
            class: self.class@.map_values(|s: String| s@),
        }
    }
}

impl View for Selector {
    type V = SelectorV;

    open spec fn view(&self) -> SelectorV {
        match self {
            Selector::Simple(s) => SelectorV::Simple(s@),
        }
    }
}

impl View for Rule {
    type V = RuleV;

    open spec fn view(&self) -> RuleV {
        RuleV {
            selectors: self.selectors@.map_values(|s: Selector| s@),
            declarations: self.declarations@.map_values(|d: Declaration| (d.name@, d.value@)),
        }
    }
}

impl View for StyleSheet {
    type V = StyleSheetV;

    open spec fn view(&self) -> StyleSheetV {
        StyleSheetV { rules: self.rules@.map_values(|r: Rule| r@) }
    }
}

// --- specificity and pixel extraction ---------------------------------------

/// Specificity of a selector view: id presence outranks class count, which
/// outranks tag presence, by lexicographic comparison of the triple.
pub open spec fn spec_specificity(s: SelectorV) -> (int, int, int) {
    match s {
        SelectorV::Simple(simple) => (
            if simple.id is Some {
                1int
            } else {
                0int
            },
            simple.class.len() as int,
            if simple.tag_name is Some {
                1int
            } else {
                0int
            },
        ),
    }
}

/// Lexicographic strict order on specificity triples.
pub open spec fn spec_lt(a: (int, int, int), b: (int, int, int)) -> bool {
    a.0 < b.0 || (a.0 == b.0 && (a.1 < b.1 || (a.1 == b.1 && a.2 < b.2)))
}

/// Lexicographic less-or-equal on specificity triples.
pub open spec fn spec_le(a: (int, int, int), b: (int, int, int)) -> bool {
    spec_lt(a, b) || a == b
}

/// The simple selector inside a selector.
pub open spec fn simple_of(s: SelectorV) -> SimpleSelectorV {
    match s {
        SelectorV::Simple(x) => x,
    }
}

/// Specificity ordering: a selector with an id outranks any selector
/// without one, however many classes the latter names; and a selector with
/// only classes outranks one with only a tag. Declaration counts play no
/// part in specificity.
pub proof fn lemma_specificity_ordering(
    with_id: SelectorV,
    classes_only: SelectorV,
    tag_only: SelectorV,
)
    requires
        simple_of(with_id).id is Some,
        simple_of(classes_only).id is None,
        simple_of(classes_only).class.len() > 0,
        simple_of(tag_only).id is None,
        simple_of(tag_only).class.len() == 0,
    ensures
        spec_lt(spec_specificity(classes_only), spec_specificity(with_id)),
        spec_lt(spec_specificity(tag_only), spec_specificity(classes_only)),
{
}

impl Selector {
    /// Specificity of this selector, per the (id, class, tag) triple.
    pub fn specificity(&self) -> (r: Specificity)
        ensures
            (r.0 as int, r.1 as int, r.2 as int) == spec_specificity(self@),
    {
        let Selector::Simple(simple) = self;
        let a: usize = if simple.id.is_some() {
            1
        } else {
            0
        };
        let b: usize = simple.class.len();
        let c: usize = if simple.tag_name.is_some() {
            1
        } else {
            0
        };
        (a, b, c)
    }
}

/// Pixel magnitude of a value: the magnitude of a pixel length, or zero for
/// any other value.
pub open spec fn spec_to_px(v: ValueV) -> Px {
    match v {
        ValueV::Length(px, Unit::Px) => px,
        _ => 0,
    }
}

impl Value {
    /// The pixel magnitude of a pixel-length value, and zero for anything
    /// else; callers use it only where a zero fallback is safe.
    pub fn to_px(&self) -> (r: Px)
        ensures
            r == spec_to_px(self@),
    {
        match self {
            Value::Length(px, Unit::Px) => *px,
            _ => 0,
        }
    }

    /// Whether this value is exactly the keyword `auto`.
    pub fn is_auto(&self) -> (r: bool)
        ensures
            r == (self@ == ValueV::Keyword("auto"@)),
    {
        match self {
            Value::Keyword(s) => str_eq(s.as_str(), "auto"),
            _ => false,
        }
    }
}

impl Clone for Value {
    /// Clones preserve the value's view.
    fn clone(&self) -> (r: Self)
        ensures
            r@ == self@,
    {
        match self {
            Value::Keyword(s) => Value::Keyword(s.clone()),
            Value::Length(px, u) => Value::Length(*px, *u),
            Value::ColorValue(c) => Value::ColorValue(*c),
        }
    }
}

// --- the stylesheet parser --------------------------------------------------

/// What stopped a stylesheet parse.
#[derive(Clone, Copy, PartialEq, Eq, Structural, Debug)]
pub enum CssError {
    /// A length carried a unit other than `px`.
    UnknownUnit,
    /// A digit was required where none stood.
    ExpectedNumber,
    /// A color channel was not a pair of hexadecimal digits.
    BadHexDigit,
    /// A specific character was required at the current position.
    Expected(char),
    /// The input ended where more was required.
    UnexpectedEnd,
}

/// The characters allowed in identifiers, property names and keywords.
pub open spec fn is_ident_char(c: char) -> bool {
    ('a' <= c && c <= 'z') || ('A' <= c && c <= 'Z') || ('0' <= c && c <= '9') || c == '-'
        || c == '_'
}

/// Whether `c` may appear in an identifier.
pub fn valid_identifier_char(c: char) -> (b: bool)
    ensures
        b == is_ident_char(c),
{
    match c {
        'a'..='z' | 'A'..='Z' | '0'..='9' | '-' | '_' => true,
        _ => false,
    }
}

/// Decimal digits.
pub open spec fn is_digit(c: char) -> bool {
    '0' <= c && c <= '9'
}

/// The numeric value of a decimal digit.
pub open spec fn digit_val(c: char) -> int {
    c as int - '0' as int
}

/// Hexadecimal digits.
pub open spec fn is_hex_digit(c: char) -> bool {
    is_digit(c) || ('a' <= c && c <= 'f') || ('A' <= c && c <= 'F')
}

/// The numeric value of a hexadecimal digit.
pub open spec fn hex_val(c: char) -> int {
    if is_digit(c) {
        digit_val(c)
    } else if 'a' <= c && c <= 'f' {
        c as int - 'a' as int + 10
    } else {
        c as int - 'A' as int + 10
    }
}

/// The value of a decimal digit run, saturating at the pixel range.
pub open spec fn sat_dec_val(s: Seq<char>) -> Px
    decreases s.len(),
{
    if s.len() == 0 {
        0
    } else {
        crate::layout::sat64(sat_dec_val(s.drop_last()) * 10 + digit_val(s.last()))
    }
}

/// The numeric value of a hex digit.
fn hex_digit_value(c: char) -> (r: Option<u8>)
    ensures
        r is Some <==> is_hex_digit(c),
        r matches Some(v) ==> v as int == hex_val(c),
{
    if '0' <= c && c <= '9' {
        Some((c as u8) - ('0' as u8))
    } else if 'a' <= c && c <= 'f' {
        Some((c as u8) - ('a' as u8) + 10)
    } else if 'A' <= c && c <= 'F' {
        Some((c as u8) - ('A' as u8) + 10)
    } else {
        None
    }
}

/// A cursor over the stylesheet text, by character position.
pub struct Parser {
    input: Vec<char>,
    pos: usize,
}

/// View of a stylesheet parser: the character sequence and the cursor.
pub struct CssParserV {
    pub input: Seq<char>,
    pub pos: int,
}

impl View for Parser {
    type V = CssParserV;

    closed spec fn view(&self) -> CssParserV {
        CssParserV { input: self.input@, pos: self.pos as int }
    }
}

/// The cursor never passes the end of the input.
pub open spec fn css_wf(p: CssParserV) -> bool {
    0 <= p.pos <= p.input.len()
}

impl Parser {
    /// A parser at the start of the given source text.
    pub fn new(source: &str) -> (r: Parser)
        ensures
            r@.input == source@,
            r@.pos == 0,
    {
        Parser { input: crate::util::str_to_chars(source), pos: 0 }
    }

    /// Whether all input is consumed.
    fn eof(&self) -> (r: bool)
        ensures
            r == (self@.pos >= self@.input.len()),
    {
        self.pos >= self.input.len()
    }

    /// The current character, without consuming it.
    fn next_char(&self) -> (r: char)
        requires
            self@.pos < self@.input.len(),
        ensures
            r == self@.input[self@.pos],
    {
        self.input[self.pos]
    }

    /// Returns the current character and advances past it.
    fn consume_char(&mut self) -> (r: char)
        requires
            old(self)@.pos < old(self)@.input.len(),
        ensures
            final(self)@.input == old(self)@.input,
            final(self)@.pos == old(self)@.pos + 1,
            r == old(self)@.input[old(self)@.pos],
    {
        let c = self.input[self.pos];
        let n = self.input.len();
        assert(self.pos < n);
        self.pos = self.pos + 1;
        c
    }

    /// Consumes and discards whitespace.
    fn consume_whitespace(&mut self)
        requires
            css_wf(old(self)@),
        ensures
            final(self)@.input == old(self)@.input,
            old(self)@.pos <= final(self)@.pos <= final(self)@.input.len(),
            final(self)@.pos < final(self)@.input.len() ==> !crate::html::is_space(
                old(self)@.input[final(self)@.pos],
            ),
    {
        loop
            invariant
                css_wf(self@),
                self@.input == old(self)@.input,
                old(self)@.pos <= self@.pos,
            decreases self@.input.len() - self@.pos,
        {
            if self.eof() {
                return ;
            }
            if !crate::html::is_space_char(self.next_char()) {
                return ;
            }
            let _ = self.consume_char();
        }
    }

    /// Parses a run of identifier characters: a property name or keyword.
    fn parse_identifier(&mut self) -> (r: String)
        requires
            css_wf(old(self)@),
        ensures
            final(self)@.input == old(self)@.input,
            old(self)@.pos <= final(self)@.pos <= final(self)@.input.len(),
            r@ == old(self)@.input.subrange(old(self)@.pos, final(self)@.pos),
            forall|k: int|
                old(self)@.pos <= k < final(self)@.pos ==> is_ident_char(old(self)@.input[k]),
            final(self)@.pos < final(self)@.input.len() ==> !is_ident_char(
                old(self)@.input[final(self)@.pos],
            ),
    {
        let mut result = String::new();
        proof {
            assert(result@ =~= old(self)@.input.subrange(old(self)@.pos, old(self)@.pos));
        }
        loop
            invariant
                css_wf(self@),
                self@.input == old(self)@.input,
                old(self)@.pos <= self@.pos,
                result@ == old(self)@.input.subrange(old(self)@.pos, self@.pos),
                forall|k: int|
                    old(self)@.pos <= k < self@.pos ==> is_ident_char(old(self)@.input[k]),
            decreases self@.input.len() - self@.pos,
        {
            if self.eof() {
                return result;
            }
            if !valid_identifier_char(self.next_char()) {
                return result;
            }
            let c = self.consume_char();
            push_char(&mut result, c);
            proof {
                assert(result@ =~= old(self)@.input.subrange(old(self)@.pos, self@.pos));
            }
        }
    }

    /// Parses a length unit: the identifier `px` in any letter case is the
    /// only unit; any other identifier is rejected.
    pub fn parse_unit(&mut self) -> (r: Result<Unit, CssError>)
        requires
            css_wf(old(self)@),
        ensures
            final(self)@.input == old(self)@.input,
            css_wf(final(self)@),
            old(self)@.pos <= final(self)@.pos,
            r is Ok <==> (final(self)@.pos - old(self)@.pos == 2 && (old(self)@.input[
                old(self)@.pos
            ] == 'p' || old(self)@.input[old(self)@.pos] == 'P') && (old(self)@.input[
                old(self)@.pos + 1
            ] == 'x' || old(self)@.input[old(self)@.pos + 1] == 'X')),
            r matches Ok(u) ==> u == Unit::Px,
    {
        let ghost p0 = self@.pos;
        let ident = self.parse_identifier();
        let id = ident.as_str();
        let n = id.unicode_len();
        if n != 2 {
            return Err(CssError::UnknownUnit);
        }
        let c0 = id.get_char(0);
        let c1 = id.get_char(1);
        proof {
            assert(id@[0] == old(self)@.input[p0]);
            assert(id@[1] == old(self)@.input[p0 + 1]);
        }
        if (c0 == 'p' || c0 == 'P') && (c1 == 'x' || c1 == 'X') {
            Ok(Unit::Px)
        } else {
            Err(CssError::UnknownUnit)
        }
    }

    /// Parses two hexadecimal digits into one 8-bit channel value.
    pub fn parse_hex_pair(&mut self) -> (r: Result<u8, CssError>)
        requires
            css_wf(old(self)@),
        ensures
            final(self)@.input == old(self)@.input,
            css_wf(final(self)@),
            old(self)@.pos <= final(self)@.pos,
            r is Ok <==> (old(self)@.pos + 2 <= old(self)@.input.len() && is_hex_digit(
                old(self)@.input[old(self)@.pos],
            ) && is_hex_digit(old(self)@.input[old(self)@.pos + 1])),
            r matches Ok(v) ==> {
                &&& v as int == 16 * hex_val(old(self)@.input[old(self)@.pos]) + hex_val(
                    old(self)@.input[old(self)@.pos + 1],
                )
                &&& final(self)@.pos == old(self)@.pos + 2
            },
    {
        if self.eof() {
            return Err(CssError::BadHexDigit);
        }
        let c0 = self.next_char();
        let h0 = match hex_digit_value(c0) {
            Some(v) => v,
            None => {
                return Err(CssError::BadHexDigit);
            },
        };
        let _ = self.consume_char();
        if self.eof() {
            return Err(CssError::BadHexDigit);
        }
        let c1 = self.next_char();
        let h1 = match hex_digit_value(c1) {
            Some(v) => v,
            None => {
                return Err(CssError::BadHexDigit);
            },
        };
        let _ = self.consume_char();
        Ok(16 * h0 + h1)
    }

    /// Parses a color: `#` followed by three hex pairs; alpha is opaque.
    pub fn parse_color(&mut self) -> (r: Result<Value, CssError>)
        requires
            css_wf(old(self)@),
            old(self)@.pos < old(self)@.input.len(),
            old(self)@.input[old(self)@.pos] == '#',
        ensures
            final(self)@.input == old(self)@.input,
            css_wf(final(self)@),
            old(self)@.pos <= final(self)@.pos,
            r is Ok ==> final(self)@.pos == old(self)@.pos + 7,
            r matches Ok(v) ==> {
                let inp = old(self)@.input;
                let p = old(self)@.pos;
                v@ == ValueV::ColorValue(
                    Color {
                        r: (16 * hex_val(inp[p + 1]) + hex_val(inp[p + 2])) as u8,
                        g: (16 * hex_val(inp[p + 3]) + hex_val(inp[p + 4])) as u8,
                        b: (16 * hex_val(inp[p + 5]) + hex_val(inp[p + 6])) as u8,
                        a: 255,
                    },
                )
            },
    {
        let hash = self.consume_char();
        assert(hash == '#');
        let red = match self.parse_hex_pair() {
            Ok(v) => v,
            Err(e) => {
                return Err(e);
            },
        };
        let green = match self.parse_hex_pair() {
            Ok(v) => v,
            Err(e) => {
                return Err(e);
            },
        };
        let blue = match self.parse_hex_pair() {
            Ok(v) => v,
            Err(e) => {
                return Err(e);
            },
        };
        Ok(Value::ColorValue(Color { r: red, g: green, b: blue, a: 255 }))
    }

    /// Parses a decimal number: a run of digits, with an optional fraction
    /// that is read and discarded — lengths are whole pixels. The digit run
    /// saturates at the representable pixel range.
    pub fn parse_number(&mut self) -> (r: Result<Px, CssError>)
        requires
            css_wf(old(self)@),
        ensures
            final(self)@.input == old(self)@.input,
            css_wf(final(self)@),
            old(self)@.pos <= final(self)@.pos,
            r is Ok <==> (old(self)@.pos < old(self)@.input.len() && is_digit(
                old(self)@.input[old(self)@.pos],
            )),
            r matches Ok(v) ==> exists|e: int|
                old(self)@.pos < e <= final(self)@.pos && (forall|k: int|
                    old(self)@.pos <= k < e ==> is_digit(old(self)@.input[k])) && v
                    == sat_dec_val(old(self)@.input.subrange(old(self)@.pos, e)),
    {
        if self.eof() {
            return Err(CssError::ExpectedNumber);
        }
        if !('0' <= self.next_char() && self.next_char() <= '9') {
            return Err(CssError::ExpectedNumber);
        }
        let ghost p0 = self@.pos;
        let c0 = self.next_char();
        let _ = self.consume_char();
        let d0: i64 = ((c0 as u8) - ('0' as u8)) as i64;
        let mut acc: Px = d0;
        proof {
            assert(is_digit(old(self)@.input[p0]));
            let first = old(self)@.input.subrange(p0, p0 + 1);
            assert(first.drop_last() =~= Seq::<char>::empty());
            assert(sat_dec_val(first.drop_last()) == 0);
            assert(first.last() == c0);
            assert(d0 == digit_val(c0));
            assert(acc == sat_dec_val(first));
        }
        loop
            invariant
                css_wf(self@),
                self@.input == old(self)@.input,
                p0 == old(self)@.pos,
                p0 < self@.pos,
                forall|k: int| p0 <= k < self@.pos ==> is_digit(old(self)@.input[k]),
                acc == sat_dec_val(old(self)@.input.subrange(p0, self@.pos)),
                acc >= 0,
            decreases self@.input.len() - self@.pos,
        {
            if self.eof() {
                break ;
            }
            let c = self.next_char();
            if !('0' <= c && c <= '9') {
                break ;
            }
            let _ = self.consume_char();
            let d: i64 = ((c as u8) - ('0' as u8)) as i64;
            assert(d == digit_val(c));
            let next_acc: Px = if acc > (i64::MAX - d) / 10 {
                i64::MAX
            } else {
                acc * 10 + d
            };
            proof {
                let run = old(self)@.input.subrange(p0, self@.pos);
                assert(run.drop_last() =~= old(self)@.input.subrange(p0, self@.pos - 1));
                assert(run.last() == c);
                assert(next_acc == crate::layout::sat64(acc * 10 + d));
            }
            acc = next_acc;
        }
        let ghost digits_end = self@.pos;
        proof {
            assert(p0 < digits_end);
            assert(forall|k: int| p0 <= k < digits_end ==> is_digit(old(self)@.input[k]));
            assert(acc == sat_dec_val(old(self)@.input.subrange(p0, digits_end)));
        }
        // an optional fraction is discarded: lengths are whole pixels
        if !self.eof() {
            if self.next_char() == '.' {
                let _ = self.consume_char();
                loop
                    invariant
                        css_wf(self@),
                        self@.input == old(self)@.input,
                        old(self)@.pos <= self@.pos,
                        digits_end <= self@.pos,
                    decreases self@.input.len() - self@.pos,
                {
                    if self.eof() {
                        break ;
                    }
                    let c = self.next_char();
                    if !('0' <= c && c <= '9') {
                        break ;
                    }
                    let _ = self.consume_char();
                }
            }
        }
        proof {
            assert(p0 < digits_end <= self@.pos);
            assert(acc == sat_dec_val(old(self)@.input.subrange(p0, digits_end)));
        }
        Ok(acc)
    }

    /// Parses a length: a number followed by a unit.
    pub fn parse_length(&mut self) -> (r: Result<Value, CssError>)
        requires
            css_wf(old(self)@),
        ensures
            final(self)@.input == old(self)@.input,
            css_wf(final(self)@),
            old(self)@.pos <= final(self)@.pos,
            r matches Ok(v) ==> v@ matches ValueV::Length(_, u) && u == Unit::Px,
    {
        let magnitude = match self.parse_number() {
            Ok(v) => v,
            Err(e) => {
                return Err(e);
            },
        };
        let unit = match self.parse_unit() {
            Ok(u) => u,
            Err(e) => {
                return Err(e);
            },
        };
        Ok(Value::Length(magnitude, unit))
    }

    /// Parses one value: a length if a digit follows, a color after `#`,
    /// otherwise a keyword.
    pub fn parse_value(&mut self) -> (r: Result<Value, CssError>)
        requires
            css_wf(old(self)@),
        ensures
            final(self)@.input == old(self)@.input,
            css_wf(final(self)@),
            old(self)@.pos <= final(self)@.pos,
            r is Ok ==> old(self)@.pos < old(self)@.input.len(),
            r matches Ok(v) ==> {
                let c = old(self)@.input[old(self)@.pos];
                &&& (is_digit(c) ==> (v@ matches ValueV::Length(_, u) && u == Unit::Px))
                &&& (c == '#' ==> v@ is ColorValue)
                &&& (!is_digit(c) && c != '#' ==> v@ == ValueV::Keyword(
                    old(self)@.input.subrange(old(self)@.pos, final(self)@.pos),
                ))
            },
    {
        if self.eof() {
            return Err(CssError::UnexpectedEnd);
        }
        let c = self.next_char();
        if '0' <= c && c <= '9' {
            self.parse_length()
        } else if c == '#' {
            self.parse_color()
        } else {
            let ident = self.parse_identifier();
            Ok(Value::Keyword(ident))
        }
    }

    /// Parses one `name: value;` declaration.
    pub fn parse_declaration(&mut self) -> (r: Result<Declaration, CssError>)
        requires
            css_wf(old(self)@),
        ensures
            final(self)@.input == old(self)@.input,
            css_wf(final(self)@),
            old(self)@.pos <= final(self)@.pos,
            r is Ok ==> final(self)@.pos > old(self)@.pos,
            r matches Ok(d) ==> {
                let p = old(self)@.pos;
                let n = d.name@.len() as int;
                &&& d.name@ == old(self)@.input.subrange(p, p + n)
                &&& (forall|k: int| 0 <= k < n ==> is_ident_char(#[trigger] d.name@[k]))
                &&& old(self)@.input[final(self)@.pos - 1] == ';'
            },
    {
        let property_name = self.parse_identifier();
        self.consume_whitespace();
        if self.eof() {
            return Err(CssError::UnexpectedEnd);
        }
        let colon = self.consume_char();
        if colon != ':' {
            return Err(CssError::Expected(':'));
        }
        self.consume_whitespace();
        let value = match self.parse_value() {
            Ok(v) => v,
            Err(e) => {
                return Err(e);
            },
        };
        self.consume_whitespace();
        if self.eof() {
            return Err(CssError::UnexpectedEnd);
        }
        let semi = self.consume_char();
        if semi != ';' {
            return Err(CssError::Expected(';'));
        }
        Ok(Declaration { name: property_name, value })
    }

    /// Parses the brace-enclosed declaration list of one rule.
    pub fn parse_declarations(&mut self) -> (r: Result<Vec<Declaration>, CssError>)
        requires
            css_wf(old(self)@),
        ensures
            final(self)@.input == old(self)@.input,
            css_wf(final(self)@),
            old(self)@.pos <= final(self)@.pos,
            r is Ok ==> final(self)@.pos > old(self)@.pos,
    {
        if self.eof() {
            return Err(CssError::UnexpectedEnd);
        }
        let open = self.consume_char();
        if open != '{' {
            return Err(CssError::Expected('{'));
        }
        let mut declarations: Vec<Declaration> = Vec::new();
        loop
            invariant
                css_wf(self@),
                self@.input == old(self)@.input,
                old(self)@.pos < self@.pos,
            decreases self@.input.len() - self@.pos,
        {
            self.consume_whitespace();
            if self.eof() {
                return Err(CssError::UnexpectedEnd);
            }
            if self.next_char() == '}' {
                let _ = self.consume_char();
                return Ok(declarations);
            }
            let declaration = match self.parse_declaration() {
                Ok(d) => d,
                Err(e) => {
                    return Err(e);
                },
            };
            declarations.push(declaration);
        }
    }

    /// Parses one simple selector: an optional tag name, `#id`, `.class`
    /// names and the universal `*`, in any order, until another character.
    pub fn parse_simple_selector(&mut self) -> (r: SimpleSelector)
        requires
            css_wf(old(self)@),
        ensures
            final(self)@.input == old(self)@.input,
            css_wf(final(self)@),
            old(self)@.pos <= final(self)@.pos,
    {
        let mut selector = SimpleSelector { tag_name: None, id: None, class: Vec::new() };
        loop
            invariant
                css_wf(self@),
                self@.input == old(self)@.input,
                old(self)@.pos <= self@.pos,
            decreases self@.input.len() - self@.pos,
        {
            if self.eof() {
                return selector;
            }
            let c = self.next_char();
            if c == '#' {
                let _ = self.consume_char();
                selector.id = Some(self.parse_identifier());
            } else if c == '.' {
                let _ = self.consume_char();
                let class_name = self.parse_identifier();
                selector.class.push(class_name);
            } else if c == '*' {
                let _ = self.consume_char();
            } else if valid_identifier_char(c) {
                selector.tag_name = Some(self.parse_identifier());
            } else {
                return selector;
            }
        }
    }

    /// Parses the comma-separated selectors of one rule, in source order,
    /// up to the `{` of its declaration block, which stays unconsumed.
    pub fn parse_selectors(&mut self) -> (r: Result<Vec<Selector>, CssError>)
        requires
            css_wf(old(self)@),
        ensures
            final(self)@.input == old(self)@.input,
            css_wf(final(self)@),
            old(self)@.pos <= final(self)@.pos,
            r is Ok ==> final(self)@.pos < final(self)@.input.len() && final(self)@.input[
                final(self)@.pos
            ] == '{',
            r matches Ok(v) ==> v@.len() >= 1,
    {
        let mut selectors: Vec<Selector> = Vec::new();
        loop
            invariant
                css_wf(self@),
                self@.input == old(self)@.input,
                old(self)@.pos <= self@.pos,
            decreases self@.input.len() - self@.pos,
        {
            let simple = self.parse_simple_selector();
            selectors.push(Selector::Simple(simple));
            self.consume_whitespace();
            if self.eof() {
                return Err(CssError::UnexpectedEnd);
            }
            let c = self.next_char();
            if c == ',' {
                let _ = self.consume_char();
                self.consume_whitespace();
            } else if c == '{' {
                return Ok(selectors);
            } else {
                return Err(CssError::Expected('{'));
            }
        }
    }

    /// Parses one rule: its selectors and its declaration block.
    pub fn parse_rule(&mut self) -> (r: Result<Rule, CssError>)
        requires
            css_wf(old(self)@),
        ensures
            final(self)@.input == old(self)@.input,
            css_wf(final(self)@),
            old(self)@.pos <= final(self)@.pos,
            r is Ok ==> final(self)@.pos > old(self)@.pos,
            r matches Ok(rule) ==> rule.selectors@.len() >= 1,
    {
        let selectors = match self.parse_selectors() {
            Ok(s) => s,
            Err(e) => {
                return Err(e);
            },
        };
        let declarations = match self.parse_declarations() {
            Ok(d) => d,
            Err(e) => {
                return Err(e);
            },
        };
        Ok(Rule { selectors, declarations })
    }

    /// Parses a list of rules separated by optional whitespace.
    pub fn parse_rules(&mut self) -> (r: Result<Vec<Rule>, CssError>)
        requires
            css_wf(old(self)@),
        ensures
            final(self)@.input == old(self)@.input,
            css_wf(final(self)@),
            old(self)@.pos <= final(self)@.pos,
            r is Ok ==> final(self)@.pos >= final(self)@.input.len(),
            r matches Ok(v) ==> forall|i: int|
                0 <= i < v@.len() ==> (#[trigger] v@[i]).selectors@.len() >= 1,
    {
        let mut rules: Vec<Rule> = Vec::new();
        loop
            invariant
                css_wf(self@),
                self@.input == old(self)@.input,
                old(self)@.pos <= self@.pos,
                forall|i: int|
                    0 <= i < rules@.len() ==> (#[trigger] rules@[i]).selectors@.len() >= 1,
            decreases self@.input.len() - self@.pos,
        {
            self.consume_whitespace();
            if self.eof() {
                return Ok(rules);
            }
            let rule = match self.parse_rule() {
                Ok(rule) => rule,
                Err(e) => {
                    return Err(e);
                },
            };
            rules.push(rule);
        }
    }
}

/// Parses a whole stylesheet. Every rule of a parsed stylesheet carries at
/// least one selector.
pub fn parse(source: String) -> (r: Result<StyleSheet, CssError>)
    ensures
        r matches Ok(s) ==> forall|i: int|
            0 <= i < s@.rules.len() ==> (#[trigger] s@.rules[i]).selectors.len() >= 1,
{
    let mut parser = Parser::new(source.as_str());
    match parser.parse_rules() {
        Ok(rules) => {
            let sheet = StyleSheet { rules };
            proof {
                assert forall|i: int| 0 <= i < sheet@.rules.len() implies (#[trigger]
                sheet@.rules[i]).selectors.len() >= 1 by {
                    assert(sheet@.rules[i] == sheet.rules@[i]@);
                }
            }
            Ok(sheet)
        },
        Err(e) => Err(e),
    }
}

} // verus!
