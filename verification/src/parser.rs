//! Recursive-descent parsers for the markup language and for
//! stylesheets, working over a character buffer. Malformed input is
//! rejected with an error rather than answered with a partial tree.

use vstd::prelude::*;

use crate::css::{
    spec_lex_le, spec_specificity, specificity_le, Color, Declaration, Rule, Selector, SelectorV,
    SimpleSelector, Stylesheet, Unit, Value,
};
use crate::dom::{AttrMap, Node};
use crate::strutil::{push_char, str_to_chars};

verus! {

/// Why parsing stopped: the input ended inside a construct, a
/// construct began with the wrong character, a length had no usable
/// whole-pixel count, or a length named a unit the geometry layer does
/// not know (a fatal input error rather than a silent default).
#[derive(Clone, Copy, PartialEq, Eq, Structural, Debug)]
pub enum ParseError {
    UnexpectedEnd,
    UnexpectedChar,
    MalformedNumber,
    UnrecognizedUnit,
}

/// Which characters a scan accepts.
#[derive(Clone, Copy)]
pub enum CharTest {
    /// ASCII whitespace: space, tab, newline, carriage return.
    Whitespace,
    /// Any character but the given one.
    NotChar(char),
    /// Tag name characters: letters, digits, `-`.
    TagName,
    /// Identifier characters: letters, digits, `-`, `_`.
    Identifier,
    /// Digits and the decimal dot.
    DigitOrDot,
}

pub open spec fn spec_valid_identifier_char(c: char) -> bool {
    ('a' <= c && c <= 'z') || ('A' <= c && c <= 'Z') || ('0' <= c && c <= '9') || c == '-' || c
        == '_'
}

/// Whether `c` may appear in an identifier.
pub fn valid_identifier_char(c: char) -> (r: bool)
    ensures
        r == spec_valid_identifier_char(c),
{
    ('a' <= c && c <= 'z') || ('A' <= c && c <= 'Z') || ('0' <= c && c <= '9') || c == '-' || c
        == '_'
}

impl CharTest {
    pub open spec fn holds(self, c: char) -> bool {
        match self {
            CharTest::Whitespace => c == ' ' || c == '\t' || c == '\n' || c == '\r',
            CharTest::NotChar(stop) => c != stop,
            CharTest::TagName => ('a' <= c && c <= 'z') || ('A' <= c && c <= 'Z') || ('0' <= c && c
                <= '9') || c == '-',
            CharTest::Identifier => spec_valid_identifier_char(c),
            CharTest::DigitOrDot => ('0' <= c && c <= '9') || c == '.',
        }
    }

    /// Whether `c` passes this test.
    pub fn check(self, c: char) -> (r: bool)
        ensures
            r == self.holds(c),
    {
        match self {
            CharTest::Whitespace => c == ' ' || c == '\t' || c == '\n' || c == '\r',
            CharTest::NotChar(stop) => c != stop,
            CharTest::TagName => ('a' <= c && c <= 'z') || ('A' <= c && c <= 'Z') || ('0' <= c && c
                <= '9') || c == '-',
            CharTest::Identifier => valid_identifier_char(c),
            CharTest::DigitOrDot => ('0' <= c && c <= '9') || c == '.',
        }
    }
}

/// Where a scan for characters passing `t` ends, starting at `p`: the
/// first position at or after `p` holding a failing character, or the
/// end of input.
pub open spec fn scan_end(t: CharTest, s: Seq<char>, p: int) -> int
    decreases s.len() - p,
{
    if p < 0 || p >= s.len() || !t.holds(s[p]) {
        p
    } else {
        scan_end(t, s, p + 1)
    }
}

/// A cursor over a character buffer.
pub struct Parser {
    pub pos: usize,
    pub input: Vec<char>,
}

impl Parser {
    /// The cursor never passes the end of the buffer.
    pub open spec fn wf(self) -> bool {
        self.pos <= self.input@.len()
    }

    pub open spec fn spec_eof(self) -> bool {
        self.pos >= self.input@.len()
    }

    /// Whether `t` occurs in the input at position `p`.
    pub open spec fn spec_starts_at(self, p: int, t: Seq<char>) -> bool {
        p >= 0 && p + t.len() <= self.input@.len() && self.input@.subrange(p, p + t.len()) == t
    }

    /// Whether the whole input has been consumed.
    pub fn eof(&self) -> (r: bool)
        ensures
            r == self.spec_eof(),
    {
        self.pos >= self.input.len()
    }

    /// The character under the cursor.
    pub fn next_char(&self) -> (r: char)
        requires
            self.wf(),
            !self.spec_eof(),
        ensures
            r == self.input@[self.pos as int],
    {
        self.input[self.pos]
    }

    /// Whether the input at the cursor starts with `s`.
    pub fn starts_with(&self, s: &str) -> (r: bool)
        requires
            self.wf(),
        ensures
            r == self.spec_starts_at(self.pos as int, s@),
    {
        let n = s.unicode_len();
        if n > self.input.len() - self.pos {
            return false;
        }
        let mut i: usize = 0;
        let input_len = self.input.len();
        while i < n
            invariant
                self.wf(),
                n == s@.len(),
                input_len == self.input@.len(),
                self.pos + n <= self.input@.len(),
                i <= n,
                forall|j: int| 0 <= j < i ==> self.input@[self.pos + j] == s@[j],
            decreases n - i,
        {
            if self.input[self.pos + i] != s.get_char(i) {
                return false;
            }
            i += 1;
        }
        proof {
            assert(self.input@.subrange(self.pos as int, self.pos + s@.len()) =~= s@);
        }
        true
    }

    /// Takes the character under the cursor and moves past it.
    pub fn consume_char(&mut self) -> (r: char)
        requires
            old(self).wf(),
            !old(self).spec_eof(),
        ensures
            final(self).wf(),
            final(self).input == old(self).input,
            final(self).pos == old(self).pos + 1,
            r == old(self).input@[old(self).pos as int],
    {
        let c = self.input[self.pos];
        let n = self.input.len();
        proof {
            assert(self.pos < n);
        }
        self.pos = self.pos + 1;
        c
    }

    /// Takes the longest run of characters passing `test`, moving the
    /// cursor past it.
    pub fn consume_while(&mut self, test: CharTest) -> (r: String)
        requires
            old(self).wf(),
        ensures
            final(self).wf(),
            final(self).input == old(self).input,
            final(self).pos == scan_end(test, old(self).input@, old(self).pos as int),
            old(self).pos <= final(self).pos,
            r@ == old(self).input@.subrange(old(self).pos as int, final(self).pos as int),
    {
        let mut result = String::new();
        proof {
            assert(result@ =~= self.input@.subrange(self.pos as int, self.pos as int));
        }
        while !self.eof() && test.check(self.next_char())
            invariant
                self.wf(),
                self.input == old(self).input,
                old(self).pos <= self.pos,
                scan_end(test, self.input@, old(self).pos as int) == scan_end(
                    test,
                    self.input@,
                    self.pos as int,
                ),
                result@ == self.input@.subrange(old(self).pos as int, self.pos as int),
            decreases self.input@.len() - self.pos,
        {
            let c = self.consume_char();
            push_char(&mut result, c);
            proof {
                assert(result@ =~= self.input@.subrange(old(self).pos as int, self.pos as int));
            }
        }
        result
    }

    /// Moves the cursor past any whitespace.
    pub fn consume_whitespace(&mut self)
        requires
            old(self).wf(),
        ensures
            final(self).wf(),
            final(self).input == old(self).input,
            old(self).pos <= final(self).pos,
            final(self).pos == scan_end(CharTest::Whitespace, old(self).input@, old(self).pos as int),
    {
        self.consume_while(CharTest::Whitespace);
    }

    /// Takes a tag name: letters, digits and dashes.
    pub fn parse_tag_name(&mut self) -> (r: String)
        requires
            old(self).wf(),
        ensures
            final(self).wf(),
            final(self).input == old(self).input,
            old(self).pos <= final(self).pos,
            final(self).pos == scan_end(CharTest::TagName, old(self).input@, old(self).pos as int),
            r@ == old(self).input@.subrange(old(self).pos as int, final(self).pos as int),
    {
        self.consume_while(CharTest::TagName)
    }

    /// Takes an identifier: letters, digits, dashes and underscores.
    pub fn parse_identifier(&mut self) -> (r: String)
        requires
            old(self).wf(),
        ensures
            final(self).wf(),
            final(self).input == old(self).input,
            old(self).pos <= final(self).pos,
            final(self).pos == scan_end(CharTest::Identifier, old(self).input@, old(self).pos as int),
            r@ == old(self).input@.subrange(old(self).pos as int, final(self).pos as int),
    {
        self.consume_while(CharTest::Identifier)
    }
}

/// A scan never moves backward nor past the end of input.
pub proof fn lemma_scan_end_ge(t: CharTest, s: Seq<char>, p: int)
    requires
        0 <= p <= s.len(),
    ensures
        p <= scan_end(t, s, p) <= s.len(),
    decreases s.len() - p,
{
    if p < s.len() && t.holds(s[p]) {
        lemma_scan_end_ge(t, s, p + 1);
    }
}

/// Whether `-->` occurs in the input at position `p`.
pub open spec fn arrow_at(s: Seq<char>, p: int) -> bool {
    p >= 0 && p + 3 <= s.len() && s.subrange(p, p + 3) == "-->"@
}

/// Where a comment body ends: the first position at or after `p` where
/// `-->` occurs, or the end of input.
pub open spec fn comment_scan(s: Seq<char>, p: int) -> int
    decreases s.len() - p,
{
    if p < 0 || p >= s.len() || arrow_at(s, p) {
        p
    } else {
        comment_scan(s, p + 1)
    }
}

impl Parser {
    /// Takes a text run: everything up to the next `<`.
    pub fn parse_text(&mut self) -> (r: Node)
        requires
            old(self).wf(),
            !old(self).spec_eof(),
            old(self).input@[old(self).pos as int] != '<',
        ensures
            final(self).wf(),
            final(self).input == old(self).input,
            final(self).pos == scan_end(
                CharTest::NotChar('<'),
                old(self).input@,
                old(self).pos as int,
            ),
            old(self).pos < final(self).pos,
            r@.node_type == crate::dom::NodeTypeV::Text(
                old(self).input@.subrange(old(self).pos as int, final(self).pos as int),
            ),
            r@.children.len() == 0,
    {
        proof {
            lemma_scan_end_ge(
                CharTest::NotChar('<'),
                self.input@,
                self.pos + 1,
            );
        }
        let text = self.consume_while(CharTest::NotChar('<'));
        Node::text(text)
    }

    /// Takes a comment: `<!--`, a body that may hold dashes, `-->`.
    /// An unterminated comment rejects the input.
    pub fn parse_comment(&mut self) -> (r: Result<Node, ParseError>)
        requires
            old(self).wf(),
            old(self).spec_starts_at(old(self).pos as int, "<!--"@),
        ensures
            final(self).wf(),
            final(self).input == old(self).input,
            old(self).pos <= final(self).pos,
            ({
                let e0 = scan_end(
                    CharTest::NotChar('-'),
                    old(self).input@,
                    old(self).pos + 4,
                );
                let t = comment_scan(old(self).input@, e0);
                match r {
                    Result::Ok(n) => arrow_at(old(self).input@, t) && final(self).pos == t + 3
                        && old(self).pos < final(self).pos && n@.children.len() == 0
                        && n@.node_type == crate::dom::NodeTypeV::Comment(
                        old(self).input@.subrange(old(self).pos + 4, t),
                    ),
                    Result::Err(e) => e == ParseError::UnexpectedEnd && t
                        == old(self).input@.len(),
                }
            }),
    {
        let ghost pos0 = self.pos as int;
        proof {
            reveal_strlit("<!--");
            reveal_strlit("-->");
        }
        self.consume_char();
        self.consume_char();
        self.consume_char();
        self.consume_char();
        let mut text = self.consume_while(CharTest::NotChar('-'));
        let ghost e0 = self.pos as int;
        while !self.eof() && !self.starts_with("-->")
            invariant
                self.wf(),
                self.input == old(self).input,
                0 <= pos0,
                pos0 + 4 <= e0 <= self.pos,
                e0 <= self.input@.len(),
                comment_scan(self.input@, e0) == comment_scan(self.input@, self.pos as int),
                text@ == self.input@.subrange(pos0 + 4, self.pos as int),
            decreases self.input@.len() - self.pos,
        {
            proof {
                assert(!arrow_at(self.input@, self.pos as int));
            }
            let c = self.consume_char();
            push_char(&mut text, c);
            proof {
                assert(text@ =~= self.input@.subrange(pos0 + 4, self.pos as int));
            }
        }
        if self.eof() {
            proof {
                assert(comment_scan(self.input@, self.pos as int) == self.pos as int);
            }
            return Result::Err(ParseError::UnexpectedEnd);
        }
        proof {
            assert(arrow_at(self.input@, self.pos as int));
            assert(comment_scan(self.input@, self.pos as int) == self.pos as int);
        }
        self.consume_char();
        self.consume_char();
        self.consume_char();
        Result::Ok(Node::comment(text))
    }

    /// Parses one node: a comment, an element, or a run of text.
    pub fn parse_node(&mut self) -> (r: Result<Node, ParseError>)
        requires
            old(self).wf(),
            !old(self).spec_eof(),
        ensures
            final(self).wf(),
            final(self).input == old(self).input,
            old(self).pos <= final(self).pos,
            r is Ok ==> old(self).pos < final(self).pos,
        decreases self.input@.len() - self.pos, 2int,
    {
        if self.next_char() == '<' {
            if self.starts_with("<!--") {
                self.parse_comment()
            } else {
                self.parse_element()
            }
        } else {
            Result::Ok(self.parse_text())
        }
    }

    /// Parses an element: `<`, tag name, attributes, `>`, children,
    /// and the closing tag.
    pub fn parse_element(&mut self) -> (r: Result<Node, ParseError>)
        requires
            old(self).wf(),
            !old(self).spec_eof(),
            old(self).input@[old(self).pos as int] == '<',
        ensures
            final(self).wf(),
            final(self).input == old(self).input,
            old(self).pos <= final(self).pos,
            r is Ok ==> old(self).pos < final(self).pos,
            r matches Result::Ok(n) ==> (n@.node_type matches crate::dom::NodeTypeV::Element(e)
                && e.tag_name == old(self).input@.subrange(
                old(self).pos + 1,
                scan_end(CharTest::TagName, old(self).input@, old(self).pos + 1),
            )),
        decreases self.input@.len() - self.pos, 1int,
    {
        self.consume_char();
        let tag_name = self.parse_tag_name();
        let attrs = match self.parse_attributes() {
            Result::Ok(a) => a,
            Result::Err(e) => {
                return Result::Err(e);
            },
        };
        self.consume_char();
        let children = match self.parse_nodes() {
            Result::Ok(c) => c,
            Result::Err(e) => {
                return Result::Err(e);
            },
        };
        if self.eof() {
            return Result::Err(ParseError::UnexpectedEnd);
        }
        self.consume_char();
        if self.eof() {
            return Result::Err(ParseError::UnexpectedEnd);
        }
        self.consume_char();
        self.parse_tag_name();
        if self.eof() {
            return Result::Err(ParseError::UnexpectedEnd);
        }
        self.consume_char();
        Result::Ok(Node::elem(tag_name, attrs, children))
    }

    /// Parses one `name="value"` attribute.
    pub fn parse_attr(&mut self) -> (r: Result<(String, String), ParseError>)
        requires
            old(self).wf(),
        ensures
            final(self).wf(),
            final(self).input == old(self).input,
            old(self).pos <= final(self).pos,
            r is Ok ==> old(self).pos < final(self).pos,
    {
        let name = self.parse_tag_name();
        if self.eof() {
            return Result::Err(ParseError::UnexpectedEnd);
        }
        self.consume_char();
        let value = match self.parse_attr_value() {
            Result::Ok(v) => v,
            Result::Err(e) => {
                return Result::Err(e);
            },
        };
        Result::Ok((name, value))
    }

    /// Parses a quoted attribute value.
    pub fn parse_attr_value(&mut self) -> (r: Result<String, ParseError>)
        requires
            old(self).wf(),
        ensures
            final(self).wf(),
            final(self).input == old(self).input,
            old(self).pos <= final(self).pos,
            r is Ok ==> old(self).pos < final(self).pos,
    {
        if self.eof() {
            return Result::Err(ParseError::UnexpectedEnd);
        }
        let open_quote = self.consume_char();
        let value = self.consume_while(CharTest::NotChar(open_quote));
        if self.eof() {
            return Result::Err(ParseError::UnexpectedEnd);
        }
        self.consume_char();
        Result::Ok(value)
    }

    /// Parses attributes up to (not including) the closing `>`.
    pub fn parse_attributes(&mut self) -> (r: Result<AttrMap, ParseError>)
        requires
            old(self).wf(),
        ensures
            final(self).wf(),
            final(self).input == old(self).input,
            old(self).pos <= final(self).pos,
            r is Ok ==> !final(self).spec_eof() && final(self).input@[final(self).pos as int]
                == '>',
    {
        let mut attributes = AttrMap::new();
        loop
            invariant
                self.wf(),
                self.input == old(self).input,
                old(self).pos <= self.pos,
            decreases self.input@.len() - self.pos,
        {
            self.consume_whitespace();
            if self.eof() {
                return Result::Err(ParseError::UnexpectedEnd);
            }
            if self.next_char() == '>' {
                return Result::Ok(attributes);
            }
            let nv = match self.parse_attr() {
                Result::Ok(nv) => nv,
                Result::Err(e) => {
                    return Result::Err(e);
                },
            };
            let (name, value) = nv;
            attributes.insert(name, value);
        }
    }

    /// Parses sibling nodes until the input ends or a closing tag
    /// begins.
    pub fn parse_nodes(&mut self) -> (r: Result<Vec<Node>, ParseError>)
        requires
            old(self).wf(),
        ensures
            final(self).wf(),
            final(self).input == old(self).input,
            old(self).pos <= final(self).pos,
        decreases self.input@.len() - self.pos, 3int,
    {
        let mut nodes: Vec<Node> = Vec::new();
        loop
            invariant
                self.wf(),
                self.input == old(self).input,
                old(self).pos <= self.pos,
            decreases self.input@.len() - self.pos,
        {
            self.consume_whitespace();
            if self.eof() || self.starts_with("</") {
                return Result::Ok(nodes);
            }
            let node = match self.parse_node() {
                Result::Ok(n) => n,
                Result::Err(e) => {
                    return Result::Err(e);
                },
            };
            nodes.push(node);
        }
    }
}

/// Parses a whole markup document: a single root node, or the parsed
/// nodes wrapped in an `html` element when there is not exactly one.
pub fn parse_html(source: String) -> (r: Result<Node, ParseError>)
{
    let mut parser = Parser { pos: 0, input: str_to_chars(source.as_str()) };
    let mut nodes = match parser.parse_nodes() {
        Result::Ok(n) => n,
        Result::Err(e) => {
            return Result::Err(e);
        },
    };
    if nodes.len() == 1 {
        Result::Ok(nodes.swap_remove(0))
    } else {
        Result::Ok(Node::elem(String::from_str("html"), AttrMap::new(), nodes))
    }
}

pub open spec fn spec_digit(c: char) -> bool {
    '0' <= c && c <= '9'
}

pub open spec fn digit_val(c: char) -> int {
    c as int - '0' as int
}

/// The number a run of decimal digits denotes.
pub open spec fn digits_val(s: Seq<char>) -> int
    decreases s.len(),
{
    if s.len() == 0 {
        0
    } else {
        digits_val(s.drop_last()) * 10 + digit_val(s.last())
    }
}

pub open spec fn all_digits(s: Seq<char>) -> bool {
    forall|j: int| 0 <= j < s.len() ==> spec_digit(#[trigger] s[j])
}

pub proof fn lemma_digits_val_nonneg(s: Seq<char>)
    requires
        all_digits(s),
    ensures
        digits_val(s) >= 0,
    decreases s.len(),
{
    if s.len() > 0 {
        assert(all_digits(s.drop_last()));
        lemma_digits_val_nonneg(s.drop_last());
    }
}

/// A prefix of a digit run denotes no more than the whole run.
pub proof fn lemma_digits_val_prefix(s: Seq<char>, k: int)
    requires
        all_digits(s),
        0 <= k <= s.len(),
    ensures
        digits_val(s.subrange(0, k)) <= digits_val(s),
    decreases s.len() - k,
{
    if k < s.len() {
        lemma_digits_val_prefix(s, k + 1);
        let p = s.subrange(0, k + 1);
        assert(p.drop_last() =~= s.subrange(0, k));
        assert(all_digits(s.subrange(0, k)));
        lemma_digits_val_nonneg(s.subrange(0, k));
        assert(digits_val(p) == digits_val(s.subrange(0, k)) * 10 + digit_val(p.last()));
        assert(digit_val(p.last()) >= 0);
    } else {
        assert(s.subrange(0, k) =~= s);
    }
}

pub open spec fn is_hex_char(c: char) -> bool {
    ('0' <= c && c <= '9') || ('a' <= c && c <= 'f') || ('A' <= c && c <= 'F')
}

pub open spec fn hex_val(c: char) -> int {
    if '0' <= c && c <= '9' {
        c as int - '0' as int
    } else if 'a' <= c && c <= 'f' {
        c as int - 'a' as int + 10
    } else {
        c as int - 'A' as int + 10
    }
}

/// The value of one hexadecimal digit, if it is one.
fn hex_digit(c: char) -> (r: Option<u8>)
    ensures
        match r {
            Option::Some(d) => is_hex_char(c) && d as int == hex_val(c) && d < 16,
            Option::None => !is_hex_char(c),
        },
{
    if '0' <= c && c <= '9' {
        Option::Some((c as u32 - '0' as u32) as u8)
    } else if 'a' <= c && c <= 'f' {
        Option::Some((c as u32 - 'a' as u32 + 10) as u8)
    } else if 'A' <= c && c <= 'F' {
        Option::Some((c as u32 - 'A' as u32 + 10) as u8)
    } else {
        Option::None
    }
}

/// Whether the characters name the pixel unit, in any letter case.
pub open spec fn is_px_ident(s: Seq<char>) -> bool {
    s.len() == 2 && (s[0] == 'p' || s[0] == 'P') && (s[1] == 'x' || s[1] == 'X')
}

/// One simple selector read from position `p`: each `#id`, `.class`,
/// `*` and tag-name part folded into `acc` in reading order, ending at
/// the first character that starts none of them, or at the end of
/// input. Yields the selector and the end position.
pub open spec fn spec_simple_selector(s: Seq<char>, p: int, acc: SelectorV) -> (SelectorV, int)
    decreases s.len() - p,
{
    if p < 0 || p >= s.len() {
        (acc, p)
    } else if s[p] == '#' {
        proof {
            lemma_scan_end_ge(CharTest::Identifier, s, p + 1);
        }
        let e = scan_end(CharTest::Identifier, s, p + 1);
        spec_simple_selector(
            s,
            e,
            SelectorV {
                tag_name: acc.tag_name,
                id: Option::Some(s.subrange(p + 1, e)),
                class: acc.class,
            },
        )
    } else if s[p] == '.' {
        proof {
            lemma_scan_end_ge(CharTest::Identifier, s, p + 1);
        }
        let e = scan_end(CharTest::Identifier, s, p + 1);
        spec_simple_selector(
            s,
            e,
            SelectorV {
                tag_name: acc.tag_name,
                id: acc.id,
                class: acc.class.push(s.subrange(p + 1, e)),
            },
        )
    } else if s[p] == '*' {
        spec_simple_selector(s, p + 1, acc)
    } else if spec_valid_identifier_char(s[p]) {
        proof {
            lemma_scan_end_ge(CharTest::Identifier, s, p + 1);
            assert(scan_end(CharTest::Identifier, s, p) == scan_end(CharTest::Identifier, s, p + 1));
        }
        let e = scan_end(CharTest::Identifier, s, p);
        spec_simple_selector(
            s,
            e,
            SelectorV {
                tag_name: Option::Some(s.subrange(p, e)),
                id: acc.id,
                class: acc.class,
            },
        )
    } else {
        (acc, p)
    }
}

/// Descending specificity, ties kept in written order.
pub open spec fn sorted_desc(s: Seq<SelectorV>) -> bool {
    forall|i: int, j: int|
        0 <= i <= j < s.len() ==> spec_lex_le(
            spec_specificity(s[j]),
            spec_specificity(s[i]),
        )
}

/// Sorts selectors into descending specificity, ties kept in written
/// order, so that a rule's first matching selector is its most specific
/// one.
fn sort_selectors(v: Vec<Selector>) -> (r: Vec<Selector>)
    ensures
        sorted_desc(r.deep_view()),
        r@.len() == v@.len(),
{
    let mut rest = v;
    let mut out: Vec<Selector> = Vec::new();
    while rest.len() > 0
        invariant
            out@.len() + rest@.len() == v@.len(),
            sorted_desc(out.deep_view()),
        decreases rest@.len(),
    {
        let x = rest.remove(0);
        let sx = x.specificity();
        let ghost xv = x.deep_view();
        let mut k: usize = out.len();
        while k > 0 && !specificity_le(sx, out[k - 1].specificity())
            invariant
                crate::css::spec_view(sx) == spec_specificity(xv),
                k <= out.len(),
                sorted_desc(out.deep_view()),
                forall|j: int|
                    k <= j < out@.len() ==> !spec_lex_le(
                        spec_specificity(xv),
                        spec_specificity(#[trigger] out.deep_view()[j]),
                    ),
            decreases k,
        {
            proof {
                assert(out.deep_view()[k - 1] == out@[k - 1].deep_view());
            }
            k -= 1;
        }
        proof {
            if k > 0 {
                assert(out.deep_view()[k - 1] == out@[k - 1].deep_view());
                assert(spec_lex_le(spec_specificity(xv), spec_specificity(out.deep_view()[k - 1])));
            }
        }
        let ghost old_dv = out.deep_view();
        let ghost prev = out@;
        let ghost kk = k as int;
        out.insert(k, x);
        proof {
            let new_dv = out.deep_view();
            assert(out@ == prev.insert(kk, x));
            assert forall|j: int| 0 <= j < new_dv.len() implies new_dv[j] == old_dv.insert(
                kk,
                xv,
            )[j] by {
                assert(new_dv[j] == out@[j].deep_view());
                if j < kk {
                    assert(out@[j] == prev[j]);
                    assert(old_dv[j] == prev[j].deep_view());
                } else if j == kk {
                    assert(out@[j] == x);
                } else {
                    assert(out@[j] == prev[j - 1]);
                    assert(old_dv[j - 1] == prev[j - 1].deep_view());
                }
            }
            assert(new_dv =~= old_dv.insert(kk, xv));
            assert forall|a: int, b: int| 0 <= a <= b < new_dv.len() implies spec_lex_le(
                spec_specificity(new_dv[b]),
                spec_specificity(new_dv[a]),
            ) by {
                if a < kk && b == kk {
                    assert(spec_lex_le(
                        spec_specificity(old_dv[kk - 1]),
                        spec_specificity(old_dv[a]),
                    ));
                } else if a == kk && b > kk {
                    assert(!spec_lex_le(spec_specificity(xv), spec_specificity(old_dv[b - 1])));
                } else if a < kk && b > kk {
                    assert(spec_lex_le(
                        spec_specificity(old_dv[b - 1]),
                        spec_specificity(old_dv[a]),
                    ));
                }
            }
        }
    }
    out
}

impl Parser {
    /// Takes a whole-pixel count: a nonempty run of decimal digits that
    /// fits a pixel count. A fractional, empty or oversized number is a
    /// malformed length.
    pub fn parse_number(&mut self) -> (r: Result<i64, ParseError>)
        requires
            old(self).wf(),
        ensures
            final(self).wf(),
            final(self).input == old(self).input,
            final(self).pos == scan_end(CharTest::DigitOrDot, old(self).input@, old(self).pos as int),
            old(self).pos <= final(self).pos,
            ({
                let s = old(self).input@.subrange(old(self).pos as int, final(self).pos as int);
                match r {
                    Result::Ok(n) => s.len() >= 1 && all_digits(s) && n as int == digits_val(s),
                    Result::Err(e) => e == ParseError::MalformedNumber && (s.len() == 0
                        || !all_digits(s) || digits_val(s) > i64::MAX as int),
                }
            }),
    {
        let s = self.consume_while(CharTest::DigitOrDot);
        let n = s.unicode_len();
        if n == 0 {
            return Result::Err(ParseError::MalformedNumber);
        }
        let mut acc: i64 = 0;
        let mut i: usize = 0;
        while i < n
            invariant
                self.wf(),
                self.input == old(self).input,
                self.pos == scan_end(CharTest::DigitOrDot, old(self).input@, old(self).pos as int),
                old(self).pos <= self.pos,
                s@ == old(self).input@.subrange(old(self).pos as int, self.pos as int),
                n == s@.len(),
                i <= n,
                all_digits(s@.subrange(0, i as int)),
                acc >= 0,
                acc as int == digits_val(s@.subrange(0, i as int)),
            decreases n - i,
        {
            let c = s.as_str().get_char(i);
            if !('0' <= c && c <= '9') {
                assert(!spec_digit(s@[i as int]));
                return Result::Err(ParseError::MalformedNumber);
            }
            let d: i64 = (c as u32 - '0' as u32) as i64;
            if acc > (i64::MAX - d) / 10 {
                proof {
                    let p = s@.subrange(0, i + 1);
                    assert(p.drop_last() =~= s@.subrange(0, i as int));
                    assert(p.last() == s@[i as int]);
                    assert(all_digits(p));
                    assert(digits_val(p) == acc * 10 + d);
                    assert(digits_val(p) > i64::MAX as int);
                    if all_digits(s@) {
                        lemma_digits_val_prefix(s@, i + 1);
                    }
                }
                return Result::Err(ParseError::MalformedNumber);
            }
            proof {
                let p = s@.subrange(0, i + 1);
                assert(p.drop_last() =~= s@.subrange(0, i as int));
                assert(p.last() == s@[i as int]);
                assert(digits_val(p) == acc * 10 + d);
            }
            acc = acc * 10 + d;
            i += 1;
        }
        proof {
            assert(s@.subrange(0, n as int) =~= s@);
        }
        Result::Ok(acc)
    }

    /// Takes a unit name; only the pixel unit is recognized, any other
    /// unit is an unrecoverable input error.
    pub fn parse_unit(&mut self) -> (r: Result<Unit, ParseError>)
        requires
            old(self).wf(),
        ensures
            final(self).wf(),
            final(self).input == old(self).input,
            final(self).pos == scan_end(CharTest::Identifier, old(self).input@, old(self).pos as int),
            old(self).pos <= final(self).pos,
            ({
                let s = old(self).input@.subrange(old(self).pos as int, final(self).pos as int);
                match r {
                    Result::Ok(u) => is_px_ident(s) && u == Unit::Px,
                    Result::Err(e) => e == ParseError::UnrecognizedUnit && !is_px_ident(s),
                }
            }),
    {
        let ident = self.parse_identifier();
        let n = ident.unicode_len();
        if n == 2 {
            let c0 = ident.as_str().get_char(0);
            let c1 = ident.as_str().get_char(1);
            if (c0 == 'p' || c0 == 'P') && (c1 == 'x' || c1 == 'X') {
                return Result::Ok(Unit::Px);
            }
        }
        Result::Err(ParseError::UnrecognizedUnit)
    }

    /// Takes a length: a whole-pixel count followed by the pixel unit.
    pub fn parse_length(&mut self) -> (r: Result<Value, ParseError>)
        requires
            old(self).wf(),
        ensures
            final(self).wf(),
            final(self).input == old(self).input,
            old(self).pos <= final(self).pos,
            r matches Result::Ok(v) ==> ({
                let e1 = scan_end(CharTest::DigitOrDot, old(self).input@, old(self).pos as int);
                &&& v@ == crate::css::ValueV::Length(
                    digits_val(old(self).input@.subrange(old(self).pos as int, e1)),
                )
                &&& final(self).pos == scan_end(CharTest::Identifier, old(self).input@, e1)
                &&& is_px_ident(old(self).input@.subrange(e1, final(self).pos as int))
            }),
    {
        let n = match self.parse_number() {
            Result::Ok(n) => n,
            Result::Err(e) => {
                return Result::Err(e);
            },
        };
        let unit = match self.parse_unit() {
            Result::Ok(u) => u,
            Result::Err(e) => {
                return Result::Err(e);
            },
        };
        Result::Ok(Value::Length(n, unit))
    }

    /// Takes two hexadecimal digits as one byte.
    pub fn parse_hex_pair(&mut self) -> (r: Result<u8, ParseError>)
        requires
            old(self).wf(),
        ensures
            final(self).wf(),
            final(self).input == old(self).input,
            old(self).pos <= final(self).pos,
            r matches Result::Ok(b) ==> old(self).pos + 2 <= old(self).input@.len()
                && is_hex_char(old(self).input@[old(self).pos as int]) && is_hex_char(
                old(self).input@[old(self).pos + 1],
            ) && b as int == 16 * hex_val(old(self).input@[old(self).pos as int]) + hex_val(
                old(self).input@[old(self).pos + 1],
            ) && final(self).pos == old(self).pos + 2,
    {
        if self.input.len() - self.pos < 2 {
            return Result::Err(ParseError::UnexpectedEnd);
        }
        let c0 = self.consume_char();
        let c1 = self.consume_char();
        let d0 = match hex_digit(c0) {
            Option::Some(d) => d,
            Option::None => {
                return Result::Err(ParseError::UnexpectedChar);
            },
        };
        let d1 = match hex_digit(c1) {
            Option::Some(d) => d,
            Option::None => {
                return Result::Err(ParseError::UnexpectedChar);
            },
        };
        Result::Ok(16 * d0 + d1)
    }

    /// Takes a color: `#` and six hexadecimal digits; the alpha channel
    /// is always opaque.
    pub fn parse_color(&mut self) -> (r: Result<Value, ParseError>)
        requires
            old(self).wf(),
        ensures
            final(self).wf(),
            final(self).input == old(self).input,
            old(self).pos <= final(self).pos,
            r matches Result::Ok(v) ==> ({
                let p = old(self).pos as int;
                let s = old(self).input@;
                &&& p + 7 <= s.len()
                &&& s[p] == '#'
                &&& v@ == crate::css::ValueV::Color(
                    Color {
                        red: (16 * hex_val(s[p + 1]) + hex_val(s[p + 2])) as u8,
                        green: (16 * hex_val(s[p + 3]) + hex_val(s[p + 4])) as u8,
                        blue: (16 * hex_val(s[p + 5]) + hex_val(s[p + 6])) as u8,
                        alpha: 255,
                    },
                )
                &&& final(self).pos == p + 7
            }),
    {
        if self.eof() {
            return Result::Err(ParseError::UnexpectedEnd);
        }
        if self.consume_char() != '#' {
            return Result::Err(ParseError::UnexpectedChar);
        }
        let red = match self.parse_hex_pair() {
            Result::Ok(b) => b,
            Result::Err(e) => {
                return Result::Err(e);
            },
        };
        let green = match self.parse_hex_pair() {
            Result::Ok(b) => b,
            Result::Err(e) => {
                return Result::Err(e);
            },
        };
        let blue = match self.parse_hex_pair() {
            Result::Ok(b) => b,
            Result::Err(e) => {
                return Result::Err(e);
            },
        };
        Result::Ok(Value::Color(Color { red, green, blue, alpha: 255 }))
    }

    /// Takes a declaration value: a length if it begins with a digit, a
    /// color if it begins with `#`, a keyword otherwise.
    pub fn parse_value(&mut self) -> (r: Result<Value, ParseError>)
        requires
            old(self).wf(),
        ensures
            final(self).wf(),
            final(self).input == old(self).input,
            old(self).pos <= final(self).pos,
            ({
                let s = old(self).input@;
                let p = old(self).pos as int;
                p < s.len() && !spec_digit(s[p]) && s[p] != '#' ==> (r matches Result::Ok(v)
                    ==> v@ == crate::css::ValueV::Keyword(
                    s.subrange(p, scan_end(CharTest::Identifier, s, p)),
                ) && final(self).pos == scan_end(CharTest::Identifier, s, p))
            }),
    {
        if self.eof() {
            return Result::Err(ParseError::UnexpectedEnd);
        }
        let c = self.next_char();
        if '0' <= c && c <= '9' {
            self.parse_length()
        } else if c == '#' {
            self.parse_color()
        } else {
            Result::Ok(Value::Keyword(self.parse_identifier()))
        }
    }

    /// Takes one simple selector: any mix of a tag name, `#id`,
    /// `.class` parts and `*`, ending at the first other character.
    pub fn parse_simple_selector(&mut self) -> (r: SimpleSelector)
        requires
            old(self).wf(),
        ensures
            final(self).wf(),
            final(self).input == old(self).input,
            old(self).pos <= final(self).pos,
            ({
                let run = spec_simple_selector(
                    old(self).input@,
                    old(self).pos as int,
                    SelectorV {
                        tag_name: Option::None,
                        id: Option::None,
                        class: Seq::<Seq<char>>::empty(),
                    },
                );
                r@ == run.0 && final(self).pos == run.1
            }),
    {
        let mut selector = SimpleSelector { tag_name: Option::None, id: Option::None, class: Vec::new() };
        proof {
            assert(selector@ =~= SelectorV {
                tag_name: Option::None,
                id: Option::None,
                class: Seq::<Seq<char>>::empty(),
            });
        }
        let ghost init = selector@;
        while !self.eof()
            invariant
                init == (SelectorV {
                    tag_name: Option::None,
                    id: Option::None,
                    class: Seq::<Seq<char>>::empty(),
                }),
                self.wf(),
                self.input == old(self).input,
                old(self).pos <= self.pos,
                spec_simple_selector(old(self).input@, old(self).pos as int, init)
                    == spec_simple_selector(self.input@, self.pos as int, selector@),
            decreases self.input@.len() - self.pos,
        {
            let ghost sel_prev = selector@;
            let ghost p = self.pos as int;
            let c = self.next_char();
            if c == '#' {
                self.consume_char();
                let id_name = self.parse_identifier();
                selector.id = Option::Some(id_name);
                proof {
                    assert(selector@ =~= SelectorV {
                        tag_name: sel_prev.tag_name,
                        id: Option::Some(self.input@.subrange(p + 1, self.pos as int)),
                        class: sel_prev.class,
                    });
                }
            } else if c == '.' {
                self.consume_char();
                let class_name = self.parse_identifier();
                let ghost cv = class_name@;
                selector.class.push(class_name);
                proof {
                    assert(selector.class.deep_view() =~= sel_prev.class.push(cv)) by {
                        assert forall|j: int| 0 <= j < selector.class@.len() implies selector
                            .class
                            .deep_view()[j] == sel_prev.class.push(cv)[j] by {
                            assert(selector.class.deep_view()[j] == selector.class@[j].deep_view());
                        }
                    }
                    assert(selector@ =~= SelectorV {
                        tag_name: sel_prev.tag_name,
                        id: sel_prev.id,
                        class: sel_prev.class.push(self.input@.subrange(p + 1, self.pos as int)),
                    });
                }
            } else if c == '*' {
                self.consume_char();
            } else if valid_identifier_char(c) {
                proof {
                    lemma_scan_end_ge(CharTest::Identifier, self.input@, self.pos + 1);
                }
                let tag = self.parse_identifier();
                selector.tag_name = Option::Some(tag);
                proof {
                    assert(selector@ =~= SelectorV {
                        tag_name: Option::Some(self.input@.subrange(p, self.pos as int)),
                        id: sel_prev.id,
                        class: sel_prev.class,
                    });
                }
            } else {
                return selector;
            }
        }
        selector
    }

    /// Takes the comma-separated selectors of one rule, up to (not
    /// including) the opening brace, sorted by descending specificity.
    pub fn parse_selectors(&mut self) -> (r: Result<Vec<Selector>, ParseError>)
        requires
            old(self).wf(),
        ensures
            final(self).wf(),
            final(self).input == old(self).input,
            old(self).pos <= final(self).pos,
            r matches Result::Ok(sels) ==> sorted_desc(sels.deep_view())
                && !final(self).spec_eof() && final(self).input@[final(self).pos as int] == '{',
    {
        let mut selectors: Vec<Selector> = Vec::new();
        loop
            invariant
                self.wf(),
                self.input == old(self).input,
                old(self).pos <= self.pos,
            decreases self.input@.len() - self.pos,
        {
            let simple = self.parse_simple_selector();
            selectors.push(Selector::Simple(simple));
            self.consume_whitespace();
            if self.eof() {
                return Result::Err(ParseError::UnexpectedEnd);
            }
            let c = self.next_char();
            if c == ',' {
                self.consume_char();
                self.consume_whitespace();
            } else if c == '{' {
                return Result::Ok(sort_selectors(selectors));
            } else {
                // Anything else here leaves the rule unreadable.
                return Result::Err(ParseError::UnexpectedChar);
            }
        }
    }

    /// Takes the brace-enclosed declarations of one rule.
    pub fn parse_declarations(&mut self) -> (r: Result<Vec<Declaration>, ParseError>)
        requires
            old(self).wf(),
            !old(self).spec_eof(),
            old(self).input@[old(self).pos as int] == '{',
        ensures
            final(self).wf(),
            final(self).input == old(self).input,
            old(self).pos <= final(self).pos,
            r is Ok ==> old(self).pos < final(self).pos,
    {
        self.consume_char();
        let mut declarations: Vec<Declaration> = Vec::new();
        loop
            invariant
                self.wf(),
                self.input == old(self).input,
                old(self).pos < self.pos,
            decreases self.input@.len() - self.pos,
        {
            self.consume_whitespace();
            if self.eof() {
                return Result::Err(ParseError::UnexpectedEnd);
            }
            if self.next_char() == '}' {
                self.consume_char();
                return Result::Ok(declarations);
            }
            let d = match self.parse_declaration() {
                Result::Ok(d) => d,
                Result::Err(e) => {
                    return Result::Err(e);
                },
            };
            declarations.push(d);
        }
    }

    /// Takes one `name: value;` declaration.
    pub fn parse_declaration(&mut self) -> (r: Result<Declaration, ParseError>)
        requires
            old(self).wf(),
        ensures
            final(self).wf(),
            final(self).input == old(self).input,
            old(self).pos <= final(self).pos,
            r is Ok ==> old(self).pos < final(self).pos,
            r matches Result::Ok(d) ==> d@.name == old(self).input@.subrange(
                old(self).pos as int,
                scan_end(CharTest::Identifier, old(self).input@, old(self).pos as int),
            ),
    {
        let property_name = self.parse_identifier();
        self.consume_whitespace();
        if self.eof() {
            return Result::Err(ParseError::UnexpectedEnd);
        }
        if self.consume_char() != ':' {
            return Result::Err(ParseError::UnexpectedChar);
        }
        self.consume_whitespace();
        let value = match self.parse_value() {
            Result::Ok(v) => v,
            Result::Err(e) => {
                return Result::Err(e);
            },
        };
        self.consume_whitespace();
        if self.eof() {
            return Result::Err(ParseError::UnexpectedEnd);
        }
        if self.consume_char() != ';' {
            return Result::Err(ParseError::UnexpectedChar);
        }
        Result::Ok(Declaration { name: property_name, value })
    }

    /// Takes one rule: selectors, then declarations.
    pub fn parse_rule(&mut self) -> (r: Result<Rule, ParseError>)
        requires
            old(self).wf(),
        ensures
            final(self).wf(),
            final(self).input == old(self).input,
            old(self).pos <= final(self).pos,
            r matches Result::Ok(rule) ==> sorted_desc(rule@.selectors) && old(self).pos
                < final(self).pos,
    {
        let selectors = match self.parse_selectors() {
            Result::Ok(s) => s,
            Result::Err(e) => {
                return Result::Err(e);
            },
        };
        let declarations = match self.parse_declarations() {
            Result::Ok(d) => d,
            Result::Err(e) => {
                return Result::Err(e);
            },
        };
        Result::Ok(Rule { selectors, declarations })
    }

    /// Takes rules until the input ends.
    pub fn parse_rules(&mut self) -> (r: Result<Vec<Rule>, ParseError>)
        requires
            old(self).wf(),
        ensures
            final(self).wf(),
            final(self).input == old(self).input,
            old(self).pos <= final(self).pos,
            r matches Result::Ok(rules) ==> forall|j: int|
                0 <= j < rules.deep_view().len() ==> sorted_desc(
                    #[trigger] rules.deep_view()[j].selectors,
                ),
    {
        let mut rules: Vec<Rule> = Vec::new();
        loop
            invariant
                self.wf(),
                self.input == old(self).input,
                old(self).pos <= self.pos,
                forall|j: int|
                    0 <= j < rules.deep_view().len() ==> sorted_desc(
                        #[trigger] rules.deep_view()[j].selectors,
                    ),
            decreases self.input@.len() - self.pos,
        {
            self.consume_whitespace();
            if self.eof() {
                return Result::Ok(rules);
            }
            let rule = match self.parse_rule() {
                Result::Ok(rl) => rl,
                Result::Err(e) => {
                    return Result::Err(e);
                },
            };
            let ghost prev = rules.deep_view();
            rules.push(rule);
            proof {
                assert forall|j: int| 0 <= j < rules.deep_view().len() implies sorted_desc(
                    #[trigger] rules.deep_view()[j].selectors,
                ) by {
                    assert(rules.deep_view()[j] == rules@[j].deep_view());
                    if j < prev.len() {
                        assert(prev[j] == rules@[j].deep_view());
                    }
                }
            }
        }
    }
}

/// Parses a whole stylesheet: its rules in written order, each rule's
/// selectors sorted by descending specificity.
pub fn parse_css(source: String) -> (r: Result<Stylesheet, ParseError>)
    ensures
        r matches Result::Ok(sheet) ==> forall|j: int|
            0 <= j < sheet@.len() ==> sorted_desc(#[trigger] sheet@[j].selectors),
{
    let mut parser = Parser { pos: 0, input: str_to_chars(source.as_str()) };
    let rules = match parser.parse_rules() {
        Result::Ok(rl) => rl,
        Result::Err(e) => {
            return Result::Err(e);
        },
    };
    Result::Ok(Stylesheet { rules })
}

} // verus!
