//! A small markup parser: turns source text into a document tree of element
//! and text nodes. Element tags carry attributes written as quoted
//! `name="value"` pairs. Malformed input surfaces as a typed error rather
//! than a panic.

use vstd::prelude::*;

use crate::dict::Dict;
use crate::dom::AttrMap;
use crate::dom::Node;
use crate::dom::NodeTypeV;
use crate::dom::elem;
use crate::dom::text;
use crate::util::push_char;
use crate::util::str_eq;
use crate::util::str_to_chars;

verus! {

/// What stopped a parse.
#[derive(Clone, Copy, PartialEq, Eq, Structural, Debug)]
pub enum ParseError {
    /// A specific character was required at the current position.
    Expected(char),
    /// A quoted attribute value did not start with a quote character.
    BadQuote,
    /// A closing tag did not repeat the opening tag's name.
    MismatchedCloseTag,
    /// The input ended where more was required.
    UnexpectedEnd,
}

/// A cursor over the source text, by character position.
pub struct Parser {
    input: Vec<char>,
    pos: usize,
}

/// View of a `Parser`: the character sequence and the cursor.
pub struct ParserV {
    pub input: Seq<char>,
    pub pos: int,
}

impl View for Parser {
    type V = ParserV;

    closed spec fn view(&self) -> ParserV {
        ParserV { input: self.input@, pos: self.pos as int }
    }
}

/// The cursor never passes the end of the input.
pub open spec fn wf(p: ParserV) -> bool {
    0 <= p.pos <= p.input.len()
}

/// The whitespace characters the parsers skip.
pub open spec fn is_space(c: char) -> bool {
    c == ' ' || c == '\n' || c == '\t' || c == '\r'
}

/// Whether `c` is a whitespace character.
pub fn is_space_char(c: char) -> (r: bool)
    ensures
        r == is_space(c),
{
    c == ' ' || c == '\n' || c == '\t' || c == '\r'
}

/// The characters allowed in tag and attribute names.
pub open spec fn is_tag_char(c: char) -> bool {
    ('a' <= c && c <= 'z') || ('A' <= c && c <= 'Z') || ('0' <= c && c <= '9')
}

/// Whether `c` may appear in a tag or attribute name.
pub fn tag_char(c: char) -> (b: bool)
    ensures
        b == is_tag_char(c),
{
    match c {
        'a'..='z' | 'A'..='Z' | '0'..='9' => true,
        _ => false,
    }
}

impl Parser {
    /// A parser at the start of the given source text.
    pub fn new(source: &str) -> (r: Parser)
        ensures
            r@.input == source@,
            r@.pos == 0,
    {
        Parser { input: str_to_chars(source), pos: 0 }
    }

    /// Whether all input is consumed.
    pub fn eof(&self) -> (r: bool)
        ensures
            r == (self@.pos >= self@.input.len()),
    {
        self.pos >= self.input.len()
    }

    /// The current character, without consuming it.
    pub fn next_char(&self) -> (r: char)
        requires
            self@.pos < self@.input.len(),
        ensures
            r == self@.input[self@.pos],
    {
        self.input[self.pos]
    }

    /// Returns the current character and advances past it.
    pub fn consume_char(&mut self) -> (r: char)
        requires
            old(self)@.pos < old(self)@.input.len(),
        ensures
            final(self)@.input == old(self)@.input,
            final(self)@.pos == old(self)@.pos + 1,
            r == old(self)@.input[old(self)@.pos],
    {
        let c = self.input[self.pos];
        let n = self.input.len();
        assert(self.pos < n);
        self.pos = self.pos + 1;
        c
    }

    /// Whether the remaining input starts with the given string.
    pub fn starts_with(&self, s: &str) -> (r: bool)
        requires
            wf(self@),
        ensures
            r == s@.is_prefix_of(self@.input.skip(self@.pos)),
    {
        let n = s.unicode_len();
        let m = self.input.len();
        if n > m - self.pos {
            assert(s@.len() > self@.input.skip(self@.pos).len());
            return false;
        }
        let mut j: usize = 0;
        while j < n
            invariant
                wf(self@),
                n == s@.len(),
                m == self@.input.len(),
                n <= m - self@.pos,
                j <= n,
                forall|k: int| 0 <= k < j ==> s@[k] == self@.input[self@.pos + k],
            decreases n - j,
        {
            if s.get_char(j) != self.input[self.pos + j] {
                assert(s@[j as int] != self@.input.skip(self@.pos)[j as int]);
                return false;
            }
            j = j + 1;
        }
        proof {
            assert(s@ =~= self@.input.skip(self@.pos).take(n as int));
        }
        true
    }

    /// Consumes characters while `test` accepts them, returning what was
    /// consumed. Stops at the end of input or at the first rejected
    /// character, which stays unconsumed.
    pub fn consume_while<F: Fn(char) -> bool>(&mut self, test: F) -> (r: String)
        requires
            wf(old(self)@),
            forall|c: char| call_requires(test, (c,)),
        ensures
            final(self)@.input == old(self)@.input,
            old(self)@.pos <= final(self)@.pos <= final(self)@.input.len(),
            r@ == old(self)@.input.subrange(old(self)@.pos, final(self)@.pos),
            forall|k: int|
                old(self)@.pos <= k < final(self)@.pos ==> call_ensures(
                    test,
                    (old(self)@.input[k],),
                    true,
                ),
            final(self)@.pos < final(self)@.input.len() ==> call_ensures(
                test,
                (old(self)@.input[final(self)@.pos],),
                false,
            ),
    {
        let mut result = String::new();
        proof {
            assert(result@ =~= old(self)@.input.subrange(old(self)@.pos, old(self)@.pos));
        }
        loop
            invariant
                wf(self@),
                self@.input == old(self)@.input,
                old(self)@.pos <= self@.pos,
                forall|c: char| call_requires(test, (c,)),
                result@ == old(self)@.input.subrange(old(self)@.pos, self@.pos),
                forall|k: int|
                    old(self)@.pos <= k < self@.pos ==> call_ensures(
                        test,
                        (old(self)@.input[k],),
                        true,
                    ),
            decreases self@.input.len() - self@.pos,
        {
            if self.eof() {
                return result;
            }
            let c = self.next_char();
            let keep = test(c);
            if !keep {
                return result;
            }
            let c2 = self.consume_char();
            push_char(&mut result, c2);
            proof {
                assert(result@ =~= old(self)@.input.subrange(old(self)@.pos, self@.pos));
            }
        }
    }

    /// Consumes and discards whitespace.
    pub fn consume_whitespace(&mut self)
        requires
            wf(old(self)@),
        ensures
            final(self)@.input == old(self)@.input,
            old(self)@.pos <= final(self)@.pos <= final(self)@.input.len(),
            forall|k: int|
                old(self)@.pos <= k < final(self)@.pos ==> is_space(old(self)@.input[k]),
            final(self)@.pos < final(self)@.input.len() ==> !is_space(
                old(self)@.input[final(self)@.pos],
            ),
    {
        let _ = self.consume_while(is_space_char);
    }

    /// Consumes characters up to, but not including, the first occurrence
    /// of `stop`, returning what was consumed.
    pub fn consume_until(&mut self, stop: char) -> (r: String)
        requires
            wf(old(self)@),
        ensures
            final(self)@.input == old(self)@.input,
            old(self)@.pos <= final(self)@.pos <= final(self)@.input.len(),
            r@ == old(self)@.input.subrange(old(self)@.pos, final(self)@.pos),
            forall|k: int|
                old(self)@.pos <= k < final(self)@.pos ==> old(self)@.input[k] != stop,
            final(self)@.pos < final(self)@.input.len() ==> old(
                self,
            )@.input[final(self)@.pos] == stop,
    {
        let mut result = String::new();
        proof {
            assert(result@ =~= old(self)@.input.subrange(old(self)@.pos, old(self)@.pos));
        }
        loop
            invariant
                wf(self@),
                self@.input == old(self)@.input,
                old(self)@.pos <= self@.pos,
                result@ == old(self)@.input.subrange(old(self)@.pos, self@.pos),
                forall|k: int|
                    old(self)@.pos <= k < self@.pos ==> old(self)@.input[k] != stop,
            decreases self@.input.len() - self@.pos,
        {
            if self.eof() {
                return result;
            }
            if self.next_char() == stop {
                return result;
            }
            let c = self.consume_char();
            push_char(&mut result, c);
            proof {
                assert(result@ =~= old(self)@.input.subrange(old(self)@.pos, self@.pos));
            }
        }
    }

    /// Parses a run of tag-name characters (letters and digits).
    pub fn parse_tag_name(&mut self) -> (r: String)
        requires
            wf(old(self)@),
        ensures
            final(self)@.input == old(self)@.input,
            old(self)@.pos <= final(self)@.pos <= final(self)@.input.len(),
            r@ == old(self)@.input.subrange(old(self)@.pos, final(self)@.pos),
            forall|k: int|
                old(self)@.pos <= k < final(self)@.pos ==> is_tag_char(old(self)@.input[k]),
            final(self)@.pos < final(self)@.input.len() ==> !is_tag_char(
                old(self)@.input[final(self)@.pos],
            ),
    {
        self.consume_while(tag_char)
    }

    /// Parses a text node: everything up to the next `<` or the end.
    pub fn parse_text(&mut self) -> (r: Node)
        requires
            wf(old(self)@),
        ensures
            final(self)@.input == old(self)@.input,
            old(self)@.pos <= final(self)@.pos <= final(self)@.input.len(),
            r@.node_type == NodeTypeV::Text(
                old(self)@.input.subrange(old(self)@.pos, final(self)@.pos),
            ),
            r@.children.len() == 0,
            forall|k: int|
                old(self)@.pos <= k < final(self)@.pos ==> old(self)@.input[k] != '<',
            final(self)@.pos < final(self)@.input.len() ==> old(
                self,
            )@.input[final(self)@.pos] == '<',
    {
        let data = self.consume_until('<');
        text(data)
    }

    /// Parses a quoted attribute value: a `"` or `'`, the value, and the
    /// same quote again. Fails exactly when no quote follows, or the quote
    /// is never closed.
    pub fn parse_attr_value(&mut self) -> (r: Result<String, ParseError>)
        requires
            wf(old(self)@),
        ensures
            final(self)@.input == old(self)@.input,
            wf(final(self)@),
            old(self)@.pos <= final(self)@.pos,
            r is Ok ==> final(self)@.pos > old(self)@.pos,
            r matches Ok(v) ==> {
                let open = old(self)@.input[old(self)@.pos];
                &&& (open == '"' || open == '\'')
                &&& v@ == old(self)@.input.subrange(old(self)@.pos + 1, final(self)@.pos - 1)
                &&& old(self)@.input[final(self)@.pos - 1] == open
                &&& forall|k: int|
                    old(self)@.pos + 1 <= k < final(self)@.pos - 1 ==> old(self)@.input[k]
                        != open
            },
    {
        if self.eof() {
            return Err(ParseError::UnexpectedEnd);
        }
        let open_quote = self.consume_char();
        if !(open_quote == '"' || open_quote == '\'') {
            return Err(ParseError::BadQuote);
        }
        let value = self.consume_until(open_quote);
        if self.eof() {
            return Err(ParseError::UnexpectedEnd);
        }
        let close = self.consume_char();
        assert(close == open_quote);
        Ok(value)
    }

    /// Parses one `name=value` attribute pair. Fails exactly when the name
    /// is not followed by `=`, or the value is malformed.
    pub fn parse_attr(&mut self) -> (r: Result<(String, String), ParseError>)
        requires
            wf(old(self)@),
        ensures
            final(self)@.input == old(self)@.input,
            wf(final(self)@),
            old(self)@.pos <= final(self)@.pos,
            r is Ok ==> final(self)@.pos > old(self)@.pos,
            r matches Ok(nv) ==> {
                let p = old(self)@.pos;
                let n = nv.0@.len() as int;
                let open = old(self)@.input[p + n + 1];
                &&& nv.0@ == old(self)@.input.subrange(p, p + n)
                &&& (forall|k: int| 0 <= k < n ==> is_tag_char(#[trigger] nv.0@[k]))
                &&& old(self)@.input[p + n] == '='
                &&& (open == '"' || open == '\'')
                &&& nv.1@ == old(self)@.input.subrange(p + n + 2, final(self)@.pos - 1)
                &&& old(self)@.input[final(self)@.pos - 1] == open
            },
    {
        let name = self.parse_tag_name();
        if self.eof() {
            return Err(ParseError::UnexpectedEnd);
        }
        let eq = self.consume_char();
        if eq != '=' {
            return Err(ParseError::Expected('='));
        }
        let value = match self.parse_attr_value() {
            Ok(v) => v,
            Err(e) => {
                return Err(e);
            },
        };
        Ok((name, value))
    }

    /// Parses attributes up to the closing `>` of an open tag, which stays
    /// unconsumed. Later bindings of a repeated name win.
    pub fn parse_attributes(&mut self) -> (r: Result<AttrMap, ParseError>)
        requires
            wf(old(self)@),
        ensures
            final(self)@.input == old(self)@.input,
            wf(final(self)@),
            old(self)@.pos <= final(self)@.pos,
            r is Ok ==> final(self)@.pos < final(self)@.input.len() && final(self)@.input[
                final(self)@.pos
            ] == '>',
    {
        let mut attributes: AttrMap = Dict::new();
        loop
            invariant
                wf(self@),
                self@.input == old(self)@.input,
                old(self)@.pos <= self@.pos,
            decreases self@.input.len() - self@.pos,
        {
            self.consume_whitespace();
            if self.eof() {
                return Err(ParseError::UnexpectedEnd);
            }
            if self.next_char() == '>' {
                return Ok(attributes);
            }
            let nv = match self.parse_attr() {
                Ok(nv) => nv,
                Err(e) => {
                    return Err(e);
                },
            };
            attributes.insert(nv.0, nv.1);
        }
    }

    /// Parses a sequence of sibling nodes, stopping at the end of input or
    /// at a closing tag.
    pub fn parse_nodes(&mut self) -> (r: Result<Vec<Node>, ParseError>)
        requires
            wf(old(self)@),
        ensures
            final(self)@.input == old(self)@.input,
            wf(final(self)@),
            old(self)@.pos <= final(self)@.pos,
            r is Ok ==> final(self)@.pos >= final(self)@.input.len() || "</"@.is_prefix_of(
                old(self)@.input.skip(final(self)@.pos),
            ),
            r matches Ok(v) ==> forall|i: int|
                0 <= i < v@.len() ==> ((#[trigger] v@[i])@.node_type is Element || v@[i]@.children.len()
                    == 0),
        decreases old(self)@.input.len() - old(self)@.pos, 2int,
    {
        let mut nodes: Vec<Node> = Vec::new();
        loop
            invariant
                wf(self@),
                self@.input == old(self)@.input,
                old(self)@.pos <= self@.pos,
                forall|i: int|
                    0 <= i < nodes@.len() ==> ((#[trigger] nodes@[i])@.node_type is Element
                        || nodes@[i]@.children.len() == 0),
            decreases self@.input.len() - self@.pos,
        {
            self.consume_whitespace();
            if self.eof() {
                return Ok(nodes);
            }
            if self.starts_with("</") {
                return Ok(nodes);
            }
            let node = match self.parse_node() {
                Ok(n) => n,
                Err(e) => {
                    return Err(e);
                },
            };
            nodes.push(node);
        }
    }

    /// Parses a single node: an element if the next character is `<`,
    /// otherwise a text node.
    pub fn parse_node(&mut self) -> (r: Result<Node, ParseError>)
        requires
            wf(old(self)@),
            old(self)@.pos < old(self)@.input.len(),
        ensures
            final(self)@.input == old(self)@.input,
            wf(final(self)@),
            old(self)@.pos <= final(self)@.pos,
            r is Ok ==> final(self)@.pos > old(self)@.pos,
            r matches Ok(n) ==> n@.node_type is Element || n@.children.len() == 0,
        decreases old(self)@.input.len() - old(self)@.pos, 1int,
    {
        if self.next_char() == '<' {
            self.parse_element()
        } else {
            let ghost p0 = self@.pos;
            let node = self.parse_text();
            proof {
                assert(old(self)@.input[p0] != '<');
                assert(self@.pos > p0);
            }
            Ok(node)
        }
    }

    /// Parses one element: open tag, attributes, children, and a matching
    /// close tag.
    pub fn parse_element(&mut self) -> (r: Result<Node, ParseError>)
        requires
            wf(old(self)@),
            old(self)@.pos < old(self)@.input.len(),
            old(self)@.input[old(self)@.pos] == '<',
        ensures
            final(self)@.input == old(self)@.input,
            wf(final(self)@),
            old(self)@.pos <= final(self)@.pos,
            r is Ok ==> final(self)@.pos > old(self)@.pos,
            r matches Ok(n) ==> n@.node_type matches NodeTypeV::Element(e) && e.tag_name
                == old(self)@.input.subrange(
                old(self)@.pos + 1,
                old(self)@.pos + 1 + e.tag_name.len(),
            ) && (forall|k: int| 0 <= k < e.tag_name.len() ==> is_tag_char(
                #[trigger] e.tag_name[k],
            )),
        decreases old(self)@.input.len() - old(self)@.pos, 0int,
    {
        let open = self.consume_char();
        assert(open == '<');
        let tag_name = self.parse_tag_name();
        let attrs = match self.parse_attributes() {
            Ok(a) => a,
            Err(e) => {
                return Err(e);
            },
        };
        let gt = self.consume_char();
        assert(gt == '>');
        let children = match self.parse_nodes() {
            Ok(c) => c,
            Err(e) => {
                return Err(e);
            },
        };
        if self.eof() {
            return Err(ParseError::UnexpectedEnd);
        }
        let lt = self.consume_char();
        if lt != '<' {
            return Err(ParseError::Expected('<'));
        }
        if self.eof() {
            return Err(ParseError::UnexpectedEnd);
        }
        let slash = self.consume_char();
        if slash != '/' {
            return Err(ParseError::Expected('/'));
        }
        let close_name = self.parse_tag_name();
        if !str_eq(close_name.as_str(), tag_name.as_str()) {
            return Err(ParseError::MismatchedCloseTag);
        }
        if self.eof() {
            return Err(ParseError::UnexpectedEnd);
        }
        let gt2 = self.consume_char();
        if gt2 != '>' {
            return Err(ParseError::Expected('>'));
        }
        Ok(elem(tag_name, attrs, children))
    }
}

/// Parses a whole document. A single root node is returned as is; several
/// top-level nodes are wrapped in a synthesized `html` element.
pub fn parse(source: String) -> (r: Result<Node, ParseError>)
    ensures
        r matches Ok(n) ==> (n@.node_type is Element || n@.children.len() == 0),
{
    let mut parser = Parser::new(source.as_str());
    let mut nodes = match parser.parse_nodes() {
        Ok(nodes) => nodes,
        Err(e) => {
            return Err(e);
        },
    };
    if nodes.len() == 1 {
        let node = nodes.remove(0);
        proof {
            crate::dom::lemma_nodes_view_index(nodes@);
        }
        Ok(node)
    } else {
        Ok(elem(String::from_str("html"), Dict::new(), nodes))
    }
}

} // verus!
