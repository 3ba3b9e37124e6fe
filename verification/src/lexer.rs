//! The lexical layer: where each piece of the source text ends and what
//! kind of piece it is.
//!
//! The supported syntax is that of script modules with template literals,
//! regular-expression literals and markup. What is read at a place depends
//! on the innermost open bracket, on what kind of piece came before, and
//! on the characters from that place on.
//!
//! Where an operand may start, `/` opens a regular-expression literal and
//! `<` before a name or `>` opens a tag; after an operand they are
//! operators. Inside a tag, names, attribute strings and expressions in
//! braces are read; between an opening and a closing tag, text. A tag that
//! holds a comma or the word `extends` is a list of type parameters and
//! has no content. After a dot a word is a plain name, whatever it spells.
//!
//! All offsets count characters, not bytes.

use crate::error::ParseErrorKind;
use crate::text::range_is;
use vstd::prelude::*;

verus! {

/// The bracket pairs of the syntax. A template literal counts as one, and
/// so do an interpolation `${ .. }` inside it, a tag of markup from `<` to
/// `>`, and the content of an element from the `>` of its opening tag to
/// the `</name` of its closing tag.
#[derive(Clone, Copy, Debug, PartialEq, Eq, Structural)]
pub enum Delim {
    Paren,
    Bracket,
    Brace,
    Template,
    Interpolation,
    Tag,
    Children,
}

/// The syntactic category of a node.
#[derive(Clone, Copy, Debug, PartialEq, Eq, Structural)]
pub enum NodeKind {
    Whitespace,
    LineComment,
    BlockComment,
    /// An identifier, or a keyword other than those below.
    Word,
    /// A word that starts with a digit.
    Number,
    /// The word `import`.
    Import,
    /// The word `export`.
    Export,
    /// The word `from`.
    From,
    /// The word `type`.
    Type,
    /// The word `as`.
    As,
    /// One of the words `const`, `let`, `var`.
    Decl,
    /// A keyword after which an operand follows, such as `return`.
    Prefix,
    /// The word `css`, the tag of style templates.
    CssTag,
    /// A string literal, quotes included.
    Str,
    /// A regular-expression literal, slashes and flags included.
    Regex,
    /// A name inside a tag of markup.
    Name,
    /// Text between the tags of markup.
    Text,
    Dot,
    Star,
    Comma,
    /// The character `=`.
    Equals,
    /// The character `:`.
    Colon,
    /// One of `++` and `--`.
    Step,
    /// Any other operator character, and `<<`.
    Punct,
    /// An opening bracket; the node stands for the whole bracketed group.
    Open(Delim),
    /// The closing bracket of a group.
    Close(Delim),
    /// Literal text inside a template.
    Chunk,
}

/// What came before a place, as far as it decides how the place is read.
#[derive(Clone, Copy, Debug, PartialEq, Eq, Structural)]
pub enum Place {
    /// An operand may start here.
    Start,
    /// An operand may start here, and a list is under way: a comma or the
    /// word `extends` came before. Inside a tag this tells a list of type
    /// parameters from an element.
    Types,
    /// A dot came before: the name of a member follows.
    Member,
    /// An operand has just ended.
    After,
    /// The name of a closing tag has just ended.
    Closing,
}

impl NodeKind {
    /// Whitespace and comments.
    pub open spec fn is_trivia(self) -> bool {
        self == NodeKind::Whitespace || self == NodeKind::LineComment || self
            == NodeKind::BlockComment
    }

    /// Words of any kind, keywords included.
    pub open spec fn is_word(self) -> bool {
        self == NodeKind::Word || self == NodeKind::Import || self == NodeKind::Export || self
            == NodeKind::From || self == NodeKind::Type || self == NodeKind::As || self
            == NodeKind::Decl || self == NodeKind::Prefix || self == NodeKind::CssTag
    }

    /// The place after a piece of this kind, `before` being the place
    /// before it.
    pub open spec fn place_after(self, before: Place) -> Place {
        if self.is_trivia() {
            before
        } else if self == NodeKind::Close(Delim::Children) {
            Place::Closing
        } else if self == NodeKind::Comma || self == NodeKind::Prefix {
            Place::Types
        } else if self == NodeKind::Dot {
            Place::Member
        } else if self == NodeKind::Name {
            if before == Place::Types || before == Place::Closing {
                before
            } else {
                Place::After
            }
        } else if self == NodeKind::Punct {
            if before == Place::Types {
                Place::Types
            } else {
                Place::Start
            }
        } else if self == NodeKind::Star || self == NodeKind::Equals || self == NodeKind::Colon
            || self is Open {
            Place::Start
        } else {
            Place::After
        }
    }

    pub fn trivia(self) -> (r: bool)
        ensures
            r == self.is_trivia(),
    {
        self == NodeKind::Whitespace || self == NodeKind::LineComment || self
            == NodeKind::BlockComment
    }

    pub fn word(self) -> (r: bool)
        ensures
            r == self.is_word(),
    {
        self == NodeKind::Word || self == NodeKind::Import || self == NodeKind::Export || self
            == NodeKind::From || self == NodeKind::Type || self == NodeKind::As || self
            == NodeKind::Decl || self == NodeKind::Prefix || self == NodeKind::CssTag
    }

    pub fn next_place(self, before: Place) -> (r: Place)
        ensures
            r == self.place_after(before),
    {
        let opens = match self {
            NodeKind::Open(_) => true,
            _ => false,
        };
        if self.trivia() {
            before
        } else if self == NodeKind::Close(Delim::Children) {
            Place::Closing
        } else if self == NodeKind::Comma || self == NodeKind::Prefix {
            Place::Types
        } else if self == NodeKind::Dot {
            Place::Member
        } else if self == NodeKind::Name {
            if before == Place::Types || before == Place::Closing {
                before
            } else {
                Place::After
            }
        } else if self == NodeKind::Punct {
            if before == Place::Types {
                Place::Types
            } else {
                Place::Start
            }
        } else if self == NodeKind::Star || self == NodeKind::Equals || self == NodeKind::Colon
            || opens {
            Place::Start
        } else {
            Place::After
        }
    }
}

impl Place {
    /// Whether an operand may start at this place.
    pub open spec fn is_open(self) -> bool {
        self == Place::Start || self == Place::Types
    }

    pub fn open(self) -> (r: bool)
        ensures
            r == self.is_open(),
    {
        self == Place::Start || self == Place::Types
    }
}

pub open spec fn is_space(c: char) -> bool {
    c == ' ' || c == '\t' || c == '\n' || c == '\r'
}

pub open spec fn is_quote(c: char) -> bool {
    c == '"' || c == '\''
}

/// Letters, digits, `_`, `$`, and every character beyond ASCII.
pub open spec fn is_word_char(c: char) -> bool {
    ('a' <= c && c <= 'z') || ('A' <= c && c <= 'Z') || ('0' <= c && c <= '9') || c == '_' || c
        == '$' || c > '\x7f'
}

/// A word character that is no digit.
pub open spec fn is_name_start(c: char) -> bool {
    is_word_char(c) && !('0' <= c && c <= '9')
}

/// The characters of names in markup: word characters, `-`, `.` and `:`.
pub open spec fn is_name_char(c: char) -> bool {
    is_word_char(c) || c == '-' || c == '.' || c == ':'
}

fn space(c: char) -> (r: bool)
    ensures
        r == is_space(c),
{
    c == ' ' || c == '\t' || c == '\n' || c == '\r'
}

fn quote(c: char) -> (r: bool)
    ensures
        r == is_quote(c),
{
    c == '"' || c == '\''
}

pub fn word_char(c: char) -> (r: bool)
    ensures
        r == is_word_char(c),
{
    ('a' <= c && c <= 'z') || ('A' <= c && c <= 'Z') || ('0' <= c && c <= '9') || c == '_' || c
        == '$' || c > '\x7f'
}

fn name_start(c: char) -> (r: bool)
    ensures
        r == is_name_start(c),
{
    word_char(c) && !('0' <= c && c <= '9')
}

fn name_char(c: char) -> (r: bool)
    ensures
        r == is_name_char(c),
{
    word_char(c) || c == '-' || c == '.' || c == ':'
}

/// End of the run of whitespace that starts at `pos`.
pub open spec fn space_end(src: Seq<char>, pos: int) -> int
    decreases src.len() - pos,
{
    if 0 <= pos < src.len() && is_space(src[pos]) {
        space_end(src, pos + 1)
    } else {
        pos
    }
}

/// End of the run of word characters that starts at `pos`.
pub open spec fn word_end(src: Seq<char>, pos: int) -> int
    decreases src.len() - pos,
{
    if 0 <= pos < src.len() && is_word_char(src[pos]) {
        word_end(src, pos + 1)
    } else {
        pos
    }
}

/// End of the run of name characters that starts at `pos`.
pub open spec fn name_end(src: Seq<char>, pos: int) -> int
    decreases src.len() - pos,
{
    if 0 <= pos < src.len() && is_name_char(src[pos]) {
        name_end(src, pos + 1)
    } else {
        pos
    }
}

/// Offset of the first line feed at or after `pos`, or the end of the text.
pub open spec fn line_end(src: Seq<char>, pos: int) -> int
    decreases src.len() - pos,
{
    if 0 <= pos < src.len() && src[pos] != '\n' {
        line_end(src, pos + 1)
    } else {
        pos
    }
}

/// End of the markup text that starts at `pos`: the offset of the next `<`
/// or `{`, or the end of the text.
pub open spec fn text_end(src: Seq<char>, pos: int) -> int
    decreases src.len() - pos,
{
    if 0 <= pos < src.len() && src[pos] != '<' && src[pos] != '{' {
        text_end(src, pos + 1)
    } else {
        pos
    }
}

/// Offset just past the first `*/` at or after `pos`, if there is one.
pub open spec fn comment_end(src: Seq<char>, pos: int) -> Option<int>
    decreases src.len() - pos,
{
    if pos < 0 || pos + 1 >= src.len() {
        None
    } else if src[pos] == '*' && src[pos + 1] == '/' {
        Some(pos + 2)
    } else {
        comment_end(src, pos + 1)
    }
}

/// Offset just past the closing `quote` of a string literal whose content
/// starts at `pos`. A backslash takes the character after it along. A line
/// feed or the end of the text before the closing quote leaves the literal
/// unterminated.
pub open spec fn string_end(src: Seq<char>, pos: int, quote: char) -> Option<int>
    decreases src.len() - pos,
{
    if pos < 0 || pos >= src.len() {
        None
    } else if src[pos] == quote {
        Some(pos + 1)
    } else if src[pos] == '\n' {
        None
    } else if src[pos] == '\\' {
        if pos + 1 >= src.len() {
            None
        } else {
            string_end(src, pos + 2, quote)
        }
    } else {
        string_end(src, pos + 1, quote)
    }
}

/// Offset just past the closing `quote` of an attribute string whose
/// content starts at `pos`: the next `quote`, whatever stands before it.
pub open spec fn attr_end(src: Seq<char>, pos: int, quote: char) -> Option<int>
    decreases src.len() - pos,
{
    if pos < 0 || pos >= src.len() {
        None
    } else if src[pos] == quote {
        Some(pos + 1)
    } else {
        attr_end(src, pos + 1, quote)
    }
}

/// Offset just past a regular-expression literal whose content starts at
/// `pos`: past the closing `/`, which stands outside a class `[..]`, and
/// past the flags after it. A backslash takes the character after it
/// along. A line feed or the end of the text before the closing `/` leaves
/// the literal unterminated.
pub open spec fn regex_end(src: Seq<char>, pos: int, in_class: bool) -> Option<int>
    decreases src.len() - pos,
{
    if pos < 0 || pos >= src.len() {
        None
    } else if src[pos] == '\n' {
        None
    } else if src[pos] == '\\' {
        if pos + 1 >= src.len() || src[pos + 1] == '\n' {
            None
        } else {
            regex_end(src, pos + 2, in_class)
        }
    } else if in_class {
        regex_end(src, pos + 1, src[pos] != ']')
    } else if src[pos] == '/' {
        Some(word_end(src, pos + 1))
    } else {
        regex_end(src, pos + 1, src[pos] == '[')
    }
}

/// End of the literal text of a template that starts at `pos`: the offset
/// of the next backtick or `${` that no backslash precedes, or the end of
/// the text.
pub open spec fn chunk_end(src: Seq<char>, pos: int) -> int
    decreases src.len() - pos,
{
    if pos < 0 || pos >= src.len() {
        pos
    } else if src[pos] == '`' {
        pos
    } else if src[pos] == '$' && pos + 1 < src.len() && src[pos + 1] == '{' {
        pos
    } else if src[pos] == '\\' {
        if pos + 1 >= src.len() {
            pos + 1
        } else {
            chunk_end(src, pos + 2)
        }
    } else {
        chunk_end(src, pos + 1)
    }
}

pub open spec fn kw_import() -> Seq<char> {
    seq!['i', 'm', 'p', 'o', 'r', 't']
}

pub open spec fn kw_export() -> Seq<char> {
    seq!['e', 'x', 'p', 'o', 'r', 't']
}

pub open spec fn kw_from() -> Seq<char> {
    seq!['f', 'r', 'o', 'm']
}

pub open spec fn kw_type() -> Seq<char> {
    seq!['t', 'y', 'p', 'e']
}

pub open spec fn kw_as() -> Seq<char> {
    seq!['a', 's']
}

pub open spec fn kw_css() -> Seq<char> {
    seq!['c', 's', 's']
}

pub open spec fn kw_const() -> Seq<char> {
    seq!['c', 'o', 'n', 's', 't']
}

pub open spec fn kw_let() -> Seq<char> {
    seq!['l', 'e', 't']
}

pub open spec fn kw_var() -> Seq<char> {
    seq!['v', 'a', 'r']
}

pub open spec fn kw_return() -> Seq<char> {
    seq!['r', 'e', 't', 'u', 'r', 'n']
}

pub open spec fn kw_typeof() -> Seq<char> {
    seq!['t', 'y', 'p', 'e', 'o', 'f']
}

pub open spec fn kw_instanceof() -> Seq<char> {
    seq!['i', 'n', 's', 't', 'a', 'n', 'c', 'e', 'o', 'f']
}

pub open spec fn kw_in() -> Seq<char> {
    seq!['i', 'n']
}

pub open spec fn kw_of() -> Seq<char> {
    seq!['o', 'f']
}

pub open spec fn kw_new() -> Seq<char> {
    seq!['n', 'e', 'w']
}

pub open spec fn kw_delete() -> Seq<char> {
    seq!['d', 'e', 'l', 'e', 't', 'e']
}

pub open spec fn kw_void() -> Seq<char> {
    seq!['v', 'o', 'i', 'd']
}

pub open spec fn kw_throw() -> Seq<char> {
    seq!['t', 'h', 'r', 'o', 'w']
}

pub open spec fn kw_case() -> Seq<char> {
    seq!['c', 'a', 's', 'e']
}

pub open spec fn kw_do() -> Seq<char> {
    seq!['d', 'o']
}

pub open spec fn kw_else() -> Seq<char> {
    seq!['e', 'l', 's', 'e']
}

pub open spec fn kw_yield() -> Seq<char> {
    seq!['y', 'i', 'e', 'l', 'd']
}

pub open spec fn kw_await() -> Seq<char> {
    seq!['a', 'w', 'a', 'i', 't']
}

pub open spec fn kw_default() -> Seq<char> {
    seq!['d', 'e', 'f', 'a', 'u', 'l', 't']
}

pub open spec fn kw_extends() -> Seq<char> {
    seq!['e', 'x', 't', 'e', 'n', 'd', 's']
}

/// One of the words that open a declaration of variables.
pub open spec fn is_decl_word(text: Seq<char>) -> bool {
    text == kw_const() || text == kw_let() || text == kw_var()
}

/// One of the keywords after which an operand follows.
pub open spec fn is_prefix_word(text: Seq<char>) -> bool {
    text == kw_return()
        || text == kw_typeof()
        || text == kw_instanceof()
        || text == kw_in()
        || text == kw_of()
        || text == kw_new()
        || text == kw_delete()
        || text == kw_void()
        || text == kw_throw()
        || text == kw_case()
        || text == kw_do()
        || text == kw_else()
        || text == kw_yield()
        || text == kw_await()
        || text == kw_default()
        || text == kw_extends()
}

/// The kind of the word spelled `text`.
pub open spec fn word_kind(text: Seq<char>) -> NodeKind {
    if text.len() > 0 && '0' <= text[0] && text[0] <= '9' {
        NodeKind::Number
    } else if text == kw_import() {
        NodeKind::Import
    } else if text == kw_export() {
        NodeKind::Export
    } else if text == kw_from() {
        NodeKind::From
    } else if text == kw_type() {
        NodeKind::Type
    } else if text == kw_as() {
        NodeKind::As
    } else if text == kw_css() {
        NodeKind::CssTag
    } else if is_decl_word(text) {
        NodeKind::Decl
    } else if is_prefix_word(text) {
        NodeKind::Prefix
    } else {
        NodeKind::Word
    }
}

/// The kind of a word of kind `kind` at `place`: after a dot every word
/// but a number is a plain name.
pub open spec fn member_kind(kind: NodeKind, place: Place) -> NodeKind {
    if place == Place::Member && kind != NodeKind::Number {
        NodeKind::Word
    } else {
        kind
    }
}

/// Whether a tag starts at `pos`, where `<` stands and an operand may
/// start: `>` or a name follows.
pub open spec fn tag_starts(src: Seq<char>, pos: int) -> bool {
    pos + 1 < src.len() && (src[pos + 1] == '>' || is_name_start(src[pos + 1]))
}

/// The piece that starts at `pos` inside a template.
pub open spec fn template_lexeme(src: Seq<char>, pos: int) -> Result<(NodeKind, int), ParseErrorKind> {
    let c = src[pos];
    if c == '`' {
        Ok((NodeKind::Close(Delim::Template), pos + 1))
    } else if c == '$' && pos + 1 < src.len() && src[pos + 1] == '{' {
        Ok((NodeKind::Open(Delim::Interpolation), pos + 2))
    } else {
        Ok((NodeKind::Chunk, chunk_end(src, pos)))
    }
}

/// The piece that starts at `pos` between the tags of an element.
pub open spec fn children_lexeme(src: Seq<char>, pos: int) -> Result<(NodeKind, int), ParseErrorKind> {
    let c = src[pos];
    if c == '{' {
        Ok((NodeKind::Open(Delim::Brace), pos + 1))
    } else if c == '<' && pos + 1 < src.len() && src[pos + 1] == '/' {
        Ok((NodeKind::Close(Delim::Children), name_end(src, pos + 2)))
    } else if c == '<' {
        Ok((NodeKind::Open(Delim::Tag), pos + 1))
    } else {
        Ok((NodeKind::Text, text_end(src, pos)))
    }
}

/// The piece that starts at `pos` inside a tag. The `>` that follows the
/// name of a closing tag ends the tag, and so does the `>` of a list of
/// type parameters; any other `>` ends an opening tag and opens the
/// content of the element.
pub open spec fn tag_lexeme(src: Seq<char>, pos: int, place: Place) -> Result<
    (NodeKind, int),
    ParseErrorKind,
> {
    let c = src[pos];
    if is_space(c) {
        Ok((NodeKind::Whitespace, space_end(src, pos)))
    } else if c == '/' && pos + 1 < src.len() && src[pos + 1] == '>' {
        Ok((NodeKind::Close(Delim::Tag), pos + 2))
    } else if c == '>' {
        if place == Place::Closing || place == Place::Types {
            Ok((NodeKind::Close(Delim::Tag), pos + 1))
        } else {
            Ok((NodeKind::Open(Delim::Children), pos + 1))
        }
    } else if c == '{' {
        Ok((NodeKind::Open(Delim::Brace), pos + 1))
    } else if is_quote(c) {
        match attr_end(src, pos + 1, c) {
            Some(e) => Ok((NodeKind::Str, e)),
            None => Err(ParseErrorKind::UnterminatedString),
        }
    } else if is_name_char(c) {
        let e = name_end(src, pos);
        if src.subrange(pos, e) == kw_extends() {
            Ok((NodeKind::Prefix, e))
        } else {
            Ok((NodeKind::Name, e))
        }
    } else if c == ',' {
        Ok((NodeKind::Comma, pos + 1))
    } else if c == '=' {
        Ok((NodeKind::Equals, pos + 1))
    } else {
        Ok((NodeKind::Punct, pos + 1))
    }
}

/// The piece that starts at `pos` in code. `top` is the innermost bracket
/// that is open, `place` tells whether an operand may start.
pub open spec fn code_lexeme(src: Seq<char>, pos: int, top: Option<Delim>, place: Place) -> Result<
    (NodeKind, int),
    ParseErrorKind,
> {
    let c = src[pos];
    let follows = |d: char| pos + 1 < src.len() && src[pos + 1] == d;
    if is_space(c) {
        Ok((NodeKind::Whitespace, space_end(src, pos)))
    } else if c == '/' && follows('/') {
        Ok((NodeKind::LineComment, line_end(src, pos)))
    } else if c == '/' && follows('*') {
        match comment_end(src, pos + 2) {
            Some(e) => Ok((NodeKind::BlockComment, e)),
            None => Err(ParseErrorKind::UnterminatedComment),
        }
    } else if c == '/' && place.is_open() {
        match regex_end(src, pos + 1, false) {
            Some(e) => Ok((NodeKind::Regex, e)),
            None => Err(ParseErrorKind::UnterminatedRegex),
        }
    } else if is_quote(c) {
        match string_end(src, pos + 1, c) {
            Some(e) => Ok((NodeKind::Str, e)),
            None => Err(ParseErrorKind::UnterminatedString),
        }
    } else if c == '`' {
        Ok((NodeKind::Open(Delim::Template), pos + 1))
    } else if is_word_char(c) {
        let e = word_end(src, pos);
        Ok((member_kind(word_kind(src.subrange(pos, e)), place), e))
    } else if c == '<' {
        if place.is_open() && tag_starts(src, pos) {
            Ok((NodeKind::Open(Delim::Tag), pos + 1))
        } else if follows('<') {
            Ok((NodeKind::Punct, pos + 2))
        } else {
            Ok((NodeKind::Punct, pos + 1))
        }
    } else if c == '(' {
        Ok((NodeKind::Open(Delim::Paren), pos + 1))
    } else if c == '[' {
        Ok((NodeKind::Open(Delim::Bracket), pos + 1))
    } else if c == '{' {
        Ok((NodeKind::Open(Delim::Brace), pos + 1))
    } else if c == ')' {
        if top == Some(Delim::Paren) {
            Ok((NodeKind::Close(Delim::Paren), pos + 1))
        } else {
            Err(ParseErrorKind::UnexpectedClose)
        }
    } else if c == ']' {
        if top == Some(Delim::Bracket) {
            Ok((NodeKind::Close(Delim::Bracket), pos + 1))
        } else {
            Err(ParseErrorKind::UnexpectedClose)
        }
    } else if c == '}' {
        if top == Some(Delim::Brace) {
            Ok((NodeKind::Close(Delim::Brace), pos + 1))
        } else if top == Some(Delim::Interpolation) {
            Ok((NodeKind::Close(Delim::Interpolation), pos + 1))
        } else {
            Err(ParseErrorKind::UnexpectedClose)
        }
    } else if c == '.' {
        Ok((NodeKind::Dot, pos + 1))
    } else if c == '*' {
        Ok((NodeKind::Star, pos + 1))
    } else if c == ',' {
        Ok((NodeKind::Comma, pos + 1))
    } else if c == '=' {
        Ok((NodeKind::Equals, pos + 1))
    } else if c == ':' {
        Ok((NodeKind::Colon, pos + 1))
    } else if (c == '+' || c == '-') && follows(c) {
        Ok((NodeKind::Step, pos + 2))
    } else {
        Ok((NodeKind::Punct, pos + 1))
    }
}

/// The piece of text that starts at `pos`: its kind and its end, or the
/// reason why none can be read. `top` is the innermost bracket that is open
/// at `pos`, `place` what came before.
#[verifier::opaque]
pub open spec fn lexeme_at(src: Seq<char>, pos: int, top: Option<Delim>, place: Place) -> Result<
    (NodeKind, int),
    ParseErrorKind,
> {
    if top == Some(Delim::Template) {
        template_lexeme(src, pos)
    } else if top == Some(Delim::Children) {
        children_lexeme(src, pos)
    } else if top == Some(Delim::Tag) {
        tag_lexeme(src, pos, place)
    } else {
        code_lexeme(src, pos, top, place)
    }
}

/// Every character in `start..end` is whitespace, and the one at `end`,
/// if there is one, is not.
pub open spec fn space_run(src: Seq<char>, start: int, end: int) -> bool {
    &&& forall|k: int| start <= k < end ==> is_space(#[trigger] src[k])
    &&& end == src.len() || !is_space(src[end])
}

/// Every character in `start..end` is a word character, and the one at
/// `end`, if there is one, is not.
pub open spec fn word_run(src: Seq<char>, start: int, end: int) -> bool {
    &&& forall|k: int| start <= k < end ==> is_word_char(#[trigger] src[k])
    &&& end == src.len() || !is_word_char(src[end])
}

/// No character in `start..end` is a line feed, and the one at `end`, if
/// there is one, is.
pub open spec fn line_run(src: Seq<char>, start: int, end: int) -> bool {
    &&& forall|k: int| start <= k < end ==> #[trigger] src[k] != '\n'
    &&& end == src.len() || src[end] == '\n'
}

pub proof fn lemma_space_end(src: Seq<char>, pos: int)
    requires
        0 <= pos <= src.len(),
    ensures
        pos <= space_end(src, pos) <= src.len(),
        pos < src.len() && is_space(src[pos]) ==> pos < space_end(src, pos),
        space_run(src, pos, space_end(src, pos)),
    decreases src.len() - pos,
{
    if pos < src.len() && is_space(src[pos]) {
        lemma_space_end(src, pos + 1);
    }
}

pub proof fn lemma_word_end(src: Seq<char>, pos: int)
    requires
        0 <= pos <= src.len(),
    ensures
        pos <= word_end(src, pos) <= src.len(),
        pos < src.len() && is_word_char(src[pos]) ==> pos < word_end(src, pos),
        word_run(src, pos, word_end(src, pos)),
    decreases src.len() - pos,
{
    if pos < src.len() && is_word_char(src[pos]) {
        lemma_word_end(src, pos + 1);
    }
}

pub proof fn lemma_name_end(src: Seq<char>, pos: int)
    requires
        0 <= pos <= src.len(),
    ensures
        pos <= name_end(src, pos) <= src.len(),
        pos < src.len() && is_name_char(src[pos]) ==> pos < name_end(src, pos),
    decreases src.len() - pos,
{
    if pos < src.len() && is_name_char(src[pos]) {
        lemma_name_end(src, pos + 1);
    }
}

pub proof fn lemma_text_end(src: Seq<char>, pos: int)
    requires
        0 <= pos <= src.len(),
    ensures
        pos <= text_end(src, pos) <= src.len(),
        pos < src.len() && src[pos] != '<' && src[pos] != '{' ==> pos < text_end(src, pos),
    decreases src.len() - pos,
{
    if pos < src.len() && src[pos] != '<' && src[pos] != '{' {
        lemma_text_end(src, pos + 1);
    }
}

pub proof fn lemma_line_end(src: Seq<char>, pos: int)
    requires
        0 <= pos <= src.len(),
    ensures
        pos <= line_end(src, pos) <= src.len(),
        pos < src.len() && src[pos] != '\n' ==> pos < line_end(src, pos),
        line_run(src, pos, line_end(src, pos)),
    decreases src.len() - pos,
{
    if pos < src.len() && src[pos] != '\n' {
        lemma_line_end(src, pos + 1);
    }
}

pub proof fn lemma_comment_end(src: Seq<char>, pos: int)
    requires
        0 <= pos <= src.len(),
    ensures
        comment_end(src, pos) matches Some(e) ==> pos + 2 <= e <= src.len() && src[e - 2] == '*'
            && src[e - 1] == '/',
    decreases src.len() - pos,
{
    if pos + 1 < src.len() && !(src[pos] == '*' && src[pos + 1] == '/') {
        lemma_comment_end(src, pos + 1);
    }
}

/// A terminated string literal ends with its quote.
pub proof fn lemma_string_end(src: Seq<char>, pos: int, quote: char)
    requires
        0 <= pos <= src.len(),
    ensures
        string_end(src, pos, quote) matches Some(e) ==> pos < e <= src.len() && src[e - 1]
            == quote,
    decreases src.len() - pos,
{
    if pos < src.len() && src[pos] != quote && src[pos] != '\n' {
        if src[pos] == '\\' {
            if pos + 1 < src.len() {
                lemma_string_end(src, pos + 2, quote);
            }
        } else {
            lemma_string_end(src, pos + 1, quote);
        }
    }
}

/// A terminated attribute string ends with its quote.
pub proof fn lemma_attr_end(src: Seq<char>, pos: int, quote: char)
    requires
        0 <= pos <= src.len(),
    ensures
        attr_end(src, pos, quote) matches Some(e) ==> pos < e <= src.len() && src[e - 1] == quote,
    decreases src.len() - pos,
{
    if pos < src.len() && src[pos] != quote {
        lemma_attr_end(src, pos + 1, quote);
    }
}

pub proof fn lemma_regex_end(src: Seq<char>, pos: int, in_class: bool)
    requires
        0 <= pos <= src.len(),
    ensures
        regex_end(src, pos, in_class) matches Some(e) ==> pos < e <= src.len(),
    decreases src.len() - pos,
{
    if pos < src.len() && src[pos] != '\n' {
        if src[pos] == '\\' {
            if pos + 1 < src.len() && src[pos + 1] != '\n' {
                lemma_regex_end(src, pos + 2, in_class);
            }
        } else if in_class {
            lemma_regex_end(src, pos + 1, src[pos] != ']');
        } else if src[pos] == '/' {
            lemma_word_end(src, pos + 1);
        } else {
            lemma_regex_end(src, pos + 1, src[pos] == '[');
        }
    }
}

pub proof fn lemma_chunk_end(src: Seq<char>, pos: int)
    requires
        0 <= pos <= src.len(),
    ensures
        pos <= chunk_end(src, pos) <= src.len(),
        pos < src.len() && src[pos] != '`' && !(src[pos] == '$' && pos + 1 < src.len() && src[pos
            + 1] == '{') ==> pos < chunk_end(src, pos),
    decreases src.len() - pos,
{
    if pos < src.len() && src[pos] != '`' && !(src[pos] == '$' && pos + 1 < src.len() && src[pos
        + 1] == '{') {
        if src[pos] == '\\' {
            if pos + 1 < src.len() {
                lemma_chunk_end(src, pos + 2);
            }
        } else {
            lemma_chunk_end(src, pos + 1);
        }
    }
}

/// A chunk ends with the text, before a backtick, or before `${`.
pub proof fn lemma_chunk_stop(src: Seq<char>, pos: int)
    requires
        0 <= pos <= src.len(),
    ensures
        chunk_end(src, pos) < src.len() ==> src[chunk_end(src, pos)] == '`' || (src[chunk_end(
            src,
            pos,
        )] == '$' && chunk_end(src, pos) + 1 < src.len() && src[chunk_end(src, pos) + 1] == '{'),
    decreases src.len() - pos,
{
    if pos < src.len() && src[pos] != '`' && !(src[pos] == '$' && pos + 1 < src.len() && src[pos
        + 1] == '{') {
        if src[pos] == '\\' {
            if pos + 1 < src.len() {
                lemma_chunk_stop(src, pos + 2);
            }
        } else {
            lemma_chunk_stop(src, pos + 1);
        }
    }
}

/// Every piece of text that can be read is non-empty and ends inside the
/// text.
pub proof fn lemma_lexeme_progress(src: Seq<char>, pos: int, top: Option<Delim>, place: Place)
    requires
        0 <= pos < src.len(),
    ensures
        lexeme_at(src, pos, top, place) matches Ok(l) ==> pos < l.1 <= src.len(),
{
    reveal(lexeme_at);
    lemma_space_end(src, pos);
    lemma_word_end(src, pos);
    lemma_name_end(src, pos);
    lemma_text_end(src, pos);
    lemma_line_end(src, pos);
    lemma_chunk_end(src, pos);
    lemma_comment_end(src, pos + 1);
    if pos + 2 <= src.len() {
        lemma_comment_end(src, pos + 2);
        lemma_name_end(src, pos + 2);
    }
    lemma_string_end(src, pos + 1, src[pos]);
    lemma_attr_end(src, pos + 1, src[pos]);
    lemma_regex_end(src, pos + 1, false);
}

/// A closing bracket is read only inside its group, and words, strings
/// with escapes and style tags only in code.
pub proof fn lemma_lexeme_context(src: Seq<char>, pos: int, top: Option<Delim>, place: Place)
    ensures
        lexeme_at(src, pos, top, place) matches Ok(l) ==> {
            &&& l.0 matches NodeKind::Close(d) ==> top == Some(d)
            &&& l.0 == NodeKind::CssTag ==> top != Some(Delim::Template) && top != Some(Delim::Tag)
                && top != Some(Delim::Children)
            &&& l.0 == NodeKind::Str ==> top != Some(Delim::Template) && top != Some(
                Delim::Children,
            )
            &&& l.0 == NodeKind::Chunk ==> l.1 == chunk_end(src, pos)
        },
{
    reveal(lexeme_at);
}

fn scan_space(src: &Vec<char>, pos: usize) -> (e: usize)
    requires
        pos <= src.len(),
    ensures
        e == space_end(src@, pos as int),
        pos <= e <= src.len(),
{
    let mut i: usize = pos;
    while i < src.len() && space(src[i])
        invariant
            pos <= i <= src.len(),
            space_end(src@, pos as int) == space_end(src@, i as int),
        decreases src.len() - i,
    {
        i += 1;
    }
    i
}

fn scan_word(src: &Vec<char>, pos: usize) -> (e: usize)
    requires
        pos <= src.len(),
    ensures
        e == word_end(src@, pos as int),
        pos <= e <= src.len(),
{
    let mut i: usize = pos;
    while i < src.len() && word_char(src[i])
        invariant
            pos <= i <= src.len(),
            word_end(src@, pos as int) == word_end(src@, i as int),
        decreases src.len() - i,
    {
        i += 1;
    }
    i
}

fn scan_name(src: &Vec<char>, pos: usize) -> (e: usize)
    requires
        pos <= src.len(),
    ensures
        e == name_end(src@, pos as int),
        pos <= e <= src.len(),
{
    let mut i: usize = pos;
    while i < src.len() && name_char(src[i])
        invariant
            pos <= i <= src.len(),
            name_end(src@, pos as int) == name_end(src@, i as int),
        decreases src.len() - i,
    {
        i += 1;
    }
    i
}

fn scan_text(src: &Vec<char>, pos: usize) -> (e: usize)
    requires
        pos <= src.len(),
    ensures
        e == text_end(src@, pos as int),
        pos <= e <= src.len(),
{
    let mut i: usize = pos;
    while i < src.len() && src[i] != '<' && src[i] != '{'
        invariant
            pos <= i <= src.len(),
            text_end(src@, pos as int) == text_end(src@, i as int),
        decreases src.len() - i,
    {
        i += 1;
    }
    i
}

fn scan_line(src: &Vec<char>, pos: usize) -> (e: usize)
    requires
        pos <= src.len(),
    ensures
        e == line_end(src@, pos as int),
        pos <= e <= src.len(),
{
    let mut i: usize = pos;
    while i < src.len() && src[i] != '\n'
        invariant
            pos <= i <= src.len(),
            line_end(src@, pos as int) == line_end(src@, i as int),
        decreases src.len() - i,
    {
        i += 1;
    }
    i
}

fn scan_comment(src: &Vec<char>, pos: usize) -> (r: Option<usize>)
    requires
        pos <= src.len(),
    ensures
        match r {
            Some(e) => comment_end(src@, pos as int) == Some(e as int) && pos + 2 <= e
                <= src.len(),
            None => comment_end(src@, pos as int) is None,
        },
{
    let mut i: usize = pos;
    while i < src.len() && i + 1 < src.len()
        invariant
            pos <= i <= src.len(),
            comment_end(src@, pos as int) == comment_end(src@, i as int),
        decreases src.len() - i,
    {
        if src[i] == '*' && src[i + 1] == '/' {
            return Some(i + 2);
        }
        i += 1;
    }
    None
}

fn scan_string(src: &Vec<char>, pos: usize, q: char) -> (r: Option<usize>)
    requires
        pos <= src.len(),
    ensures
        match r {
            Some(e) => string_end(src@, pos as int, q) == Some(e as int) && pos < e
                <= src.len(),
            None => string_end(src@, pos as int, q) is None,
        },
{
    let mut i: usize = pos;
    while i < src.len()
        invariant
            pos <= i <= src.len(),
            string_end(src@, pos as int, q) == string_end(src@, i as int, q),
        decreases src.len() - i,
    {
        let c = src[i];
        if c == q {
            return Some(i + 1);
        } else if c == '\n' {
            return None;
        } else if c == '\\' {
            if i + 1 >= src.len() {
                return None;
            }
            i += 2;
        } else {
            i += 1;
        }
    }
    None
}

fn scan_attr(src: &Vec<char>, pos: usize, q: char) -> (r: Option<usize>)
    requires
        pos <= src.len(),
    ensures
        match r {
            Some(e) => attr_end(src@, pos as int, q) == Some(e as int) && pos < e <= src.len(),
            None => attr_end(src@, pos as int, q) is None,
        },
{
    let mut i: usize = pos;
    while i < src.len()
        invariant
            pos <= i <= src.len(),
            attr_end(src@, pos as int, q) == attr_end(src@, i as int, q),
        decreases src.len() - i,
    {
        if src[i] == q {
            return Some(i + 1);
        }
        i += 1;
    }
    None
}

fn scan_regex(src: &Vec<char>, pos: usize) -> (r: Option<usize>)
    requires
        pos <= src.len(),
    ensures
        match r {
            Some(e) => regex_end(src@, pos as int, false) == Some(e as int) && pos < e
                <= src.len(),
            None => regex_end(src@, pos as int, false) is None,
        },
{
    let mut i: usize = pos;
    let mut in_class: bool = false;
    while i < src.len()
        invariant
            pos <= i <= src.len(),
            regex_end(src@, pos as int, false) == regex_end(src@, i as int, in_class),
        decreases src.len() - i,
    {
        let c = src[i];
        if c == '\n' {
            return None;
        } else if c == '\\' {
            if i + 1 >= src.len() || src[i + 1] == '\n' {
                return None;
            }
            i += 2;
        } else if in_class {
            in_class = c != ']';
            i += 1;
        } else if c == '/' {
            return Some(scan_word(src, i + 1));
        } else {
            in_class = c == '[';
            i += 1;
        }
    }
    None
}

fn scan_chunk(src: &Vec<char>, pos: usize) -> (e: usize)
    requires
        pos <= src.len(),
    ensures
        e == chunk_end(src@, pos as int),
        pos <= e <= src.len(),
{
    let mut i: usize = pos;
    while i < src.len()
        invariant
            pos <= i <= src.len(),
            chunk_end(src@, pos as int) == chunk_end(src@, i as int),
        decreases src.len() - i,
    {
        let c = src[i];
        if c == '`' {
            return i;
        } else if c == '$' && i + 1 < src.len() && src[i + 1] == '{' {
            return i;
        } else if c == '\\' {
            if i + 1 >= src.len() {
                return i + 1;
            }
            i += 2;
        } else {
            i += 1;
        }
    }
    i
}

fn classify_word(src: &Vec<char>, start: usize, end: usize) -> (k: NodeKind)
    requires
        start <= end <= src.len(),
    ensures
        k == word_kind(src@.subrange(start as int, end as int)),
{
    let w_import = ['i', 'm', 'p', 'o', 'r', 't'];
    assert(w_import@ =~= kw_import());
    let w_export = ['e', 'x', 'p', 'o', 'r', 't'];
    assert(w_export@ =~= kw_export());
    let w_from = ['f', 'r', 'o', 'm'];
    assert(w_from@ =~= kw_from());
    let w_type = ['t', 'y', 'p', 'e'];
    assert(w_type@ =~= kw_type());
    let w_as = ['a', 's'];
    assert(w_as@ =~= kw_as());
    let w_css = ['c', 's', 's'];
    assert(w_css@ =~= kw_css());
    let w_const = ['c', 'o', 'n', 's', 't'];
    assert(w_const@ =~= kw_const());
    let w_let = ['l', 'e', 't'];
    assert(w_let@ =~= kw_let());
    let w_var = ['v', 'a', 'r'];
    assert(w_var@ =~= kw_var());
    let w_return = ['r', 'e', 't', 'u', 'r', 'n'];
    assert(w_return@ =~= kw_return());
    let w_typeof = ['t', 'y', 'p', 'e', 'o', 'f'];
    assert(w_typeof@ =~= kw_typeof());
    let w_instanceof = ['i', 'n', 's', 't', 'a', 'n', 'c', 'e', 'o', 'f'];
    assert(w_instanceof@ =~= kw_instanceof());
    let w_in = ['i', 'n'];
    assert(w_in@ =~= kw_in());
    let w_of = ['o', 'f'];
    assert(w_of@ =~= kw_of());
    let w_new = ['n', 'e', 'w'];
    assert(w_new@ =~= kw_new());
    let w_delete = ['d', 'e', 'l', 'e', 't', 'e'];
    assert(w_delete@ =~= kw_delete());
    let w_void = ['v', 'o', 'i', 'd'];
    assert(w_void@ =~= kw_void());
    let w_throw = ['t', 'h', 'r', 'o', 'w'];
    assert(w_throw@ =~= kw_throw());
    let w_case = ['c', 'a', 's', 'e'];
    assert(w_case@ =~= kw_case());
    let w_do = ['d', 'o'];
    assert(w_do@ =~= kw_do());
    let w_else = ['e', 'l', 's', 'e'];
    assert(w_else@ =~= kw_else());
    let w_yield = ['y', 'i', 'e', 'l', 'd'];
    assert(w_yield@ =~= kw_yield());
    let w_await = ['a', 'w', 'a', 'i', 't'];
    assert(w_await@ =~= kw_await());
    let w_default = ['d', 'e', 'f', 'a', 'u', 'l', 't'];
    assert(w_default@ =~= kw_default());
    let w_extends = ['e', 'x', 't', 'e', 'n', 'd', 's'];
    assert(w_extends@ =~= kw_extends());
    if start < end && '0' <= src[start] && src[start] <= '9' {
        assert(src@.subrange(start as int, end as int)[0] == src@[start as int]);
        NodeKind::Number
    } else if range_is(src, start, end, &w_import) {
        NodeKind::Import
    } else if range_is(src, start, end, &w_export) {
        NodeKind::Export
    } else if range_is(src, start, end, &w_from) {
        NodeKind::From
    } else if range_is(src, start, end, &w_type) {
        NodeKind::Type
    } else if range_is(src, start, end, &w_as) {
        NodeKind::As
    } else if range_is(src, start, end, &w_css) {
        NodeKind::CssTag
    } else if range_is(src, start, end, &w_const) || range_is(src, start, end, &w_let) || range_is(src, start, end, &w_var) {
        NodeKind::Decl
    } else if range_is(src, start, end, &w_return)
        || range_is(src, start, end, &w_typeof)
        || range_is(src, start, end, &w_instanceof)
        || range_is(src, start, end, &w_in)
        || range_is(src, start, end, &w_of)
        || range_is(src, start, end, &w_new)
        || range_is(src, start, end, &w_delete)
        || range_is(src, start, end, &w_void)
        || range_is(src, start, end, &w_throw)
        || range_is(src, start, end, &w_case)
        || range_is(src, start, end, &w_do)
        || range_is(src, start, end, &w_else)
        || range_is(src, start, end, &w_yield)
        || range_is(src, start, end, &w_await)
        || range_is(src, start, end, &w_default)
        || range_is(src, start, end, &w_extends) {
        NodeKind::Prefix
    } else {
        NodeKind::Word
    }
}

fn is_top(top: Option<Delim>, d: Delim) -> (r: bool)
    ensures
        r == (top == Some(d)),
{
    match top {
        Some(t) => t == d,
        None => false,
    }
}

fn tag_opens(src: &Vec<char>, pos: usize) -> (r: bool)
    requires
        pos < src.len(),
    ensures
        r == tag_starts(src@, pos as int),
{
    pos + 1 < src.len() && (src[pos + 1] == '>' || name_start(src[pos + 1]))
}

fn next_in_template(src: &Vec<char>, pos: usize) -> (r: Result<(NodeKind, usize), ParseErrorKind>)
    requires
        pos < src.len(),
    ensures
        match r {
            Ok(l) => template_lexeme(src@, pos as int) == Ok::<(NodeKind, int), ParseErrorKind>(
                (l.0, l.1 as int),
            ),
            Err(e) => template_lexeme(src@, pos as int) == Err::<(NodeKind, int), ParseErrorKind>(
                e,
            ),
        },
{
    let c = src[pos];
    if c == '`' {
        Ok((NodeKind::Close(Delim::Template), pos + 1))
    } else if c == '$' && pos + 1 < src.len() && src[pos + 1] == '{' {
        Ok((NodeKind::Open(Delim::Interpolation), pos + 2))
    } else {
        Ok((NodeKind::Chunk, scan_chunk(src, pos)))
    }
}

fn next_in_children(src: &Vec<char>, pos: usize) -> (r: Result<(NodeKind, usize), ParseErrorKind>)
    requires
        pos < src.len(),
    ensures
        match r {
            Ok(l) => children_lexeme(src@, pos as int) == Ok::<(NodeKind, int), ParseErrorKind>(
                (l.0, l.1 as int),
            ),
            Err(e) => children_lexeme(src@, pos as int) == Err::<(NodeKind, int), ParseErrorKind>(
                e,
            ),
        },
{
    let c = src[pos];
    if c == '{' {
        Ok((NodeKind::Open(Delim::Brace), pos + 1))
    } else if c == '<' && pos + 1 < src.len() && src[pos + 1] == '/' {
        Ok((NodeKind::Close(Delim::Children), scan_name(src, pos + 2)))
    } else if c == '<' {
        Ok((NodeKind::Open(Delim::Tag), pos + 1))
    } else {
        Ok((NodeKind::Text, scan_text(src, pos)))
    }
}

fn next_in_tag(src: &Vec<char>, pos: usize, place: Place) -> (r: Result<
    (NodeKind, usize),
    ParseErrorKind,
>)
    requires
        pos < src.len(),
    ensures
        match r {
            Ok(l) => tag_lexeme(src@, pos as int, place) == Ok::<(NodeKind, int), ParseErrorKind>(
                (l.0, l.1 as int),
            ),
            Err(e) => tag_lexeme(src@, pos as int, place) == Err::<(NodeKind, int), ParseErrorKind>(
                e,
            ),
        },
{
    let c = src[pos];
    if space(c) {
        Ok((NodeKind::Whitespace, scan_space(src, pos)))
    } else if c == '/' && pos + 1 < src.len() && src[pos + 1] == '>' {
        Ok((NodeKind::Close(Delim::Tag), pos + 2))
    } else if c == '>' {
        if place == Place::Closing || place == Place::Types {
            Ok((NodeKind::Close(Delim::Tag), pos + 1))
        } else {
            Ok((NodeKind::Open(Delim::Children), pos + 1))
        }
    } else if c == '{' {
        Ok((NodeKind::Open(Delim::Brace), pos + 1))
    } else if quote(c) {
        match scan_attr(src, pos + 1, c) {
            Some(e) => Ok((NodeKind::Str, e)),
            None => Err(ParseErrorKind::UnterminatedString),
        }
    } else if name_char(c) {
        let e = scan_name(src, pos);
        let word = ['e', 'x', 't', 'e', 'n', 'd', 's'];
        assert(word@ =~= kw_extends());
        if range_is(src, pos, e, &word) {
            Ok((NodeKind::Prefix, e))
        } else {
            Ok((NodeKind::Name, e))
        }
    } else if c == ',' {
        Ok((NodeKind::Comma, pos + 1))
    } else if c == '=' {
        Ok((NodeKind::Equals, pos + 1))
    } else {
        Ok((NodeKind::Punct, pos + 1))
    }
}

fn next_in_code(src: &Vec<char>, pos: usize, top: Option<Delim>, place: Place) -> (r: Result<
    (NodeKind, usize),
    ParseErrorKind,
>)
    requires
        pos < src.len(),
    ensures
        match r {
            Ok(l) => code_lexeme(src@, pos as int, top, place) == Ok::<
                (NodeKind, int),
                ParseErrorKind,
            >((l.0, l.1 as int)),
            Err(e) => code_lexeme(src@, pos as int, top, place) == Err::<
                (NodeKind, int),
                ParseErrorKind,
            >(e),
        },
{
    let c = src[pos];
    let next_slash = pos + 1 < src.len() && src[pos + 1] == '/';
    let next_star = pos + 1 < src.len() && src[pos + 1] == '*';
    let next_less = pos + 1 < src.len() && src[pos + 1] == '<';
    let next_same = pos + 1 < src.len() && src[pos + 1] == c;
    if space(c) {
        Ok((NodeKind::Whitespace, scan_space(src, pos)))
    } else if c == '/' && next_slash {
        Ok((NodeKind::LineComment, scan_line(src, pos)))
    } else if c == '/' && next_star {
        match scan_comment(src, pos + 2) {
            Some(e) => Ok((NodeKind::BlockComment, e)),
            None => Err(ParseErrorKind::UnterminatedComment),
        }
    } else if c == '/' && place.open() {
        match scan_regex(src, pos + 1) {
            Some(e) => Ok((NodeKind::Regex, e)),
            None => Err(ParseErrorKind::UnterminatedRegex),
        }
    } else if quote(c) {
        match scan_string(src, pos + 1, c) {
            Some(e) => Ok((NodeKind::Str, e)),
            None => Err(ParseErrorKind::UnterminatedString),
        }
    } else if c == '`' {
        Ok((NodeKind::Open(Delim::Template), pos + 1))
    } else if word_char(c) {
        let e = scan_word(src, pos);
        let kind = classify_word(src, pos, e);
        if place == Place::Member && kind != NodeKind::Number {
            Ok((NodeKind::Word, e))
        } else {
            Ok((kind, e))
        }
    } else if c == '<' {
        if place.open() && tag_opens(src, pos) {
            Ok((NodeKind::Open(Delim::Tag), pos + 1))
        } else if next_less {
            Ok((NodeKind::Punct, pos + 2))
        } else {
            Ok((NodeKind::Punct, pos + 1))
        }
    } else if c == '(' {
        Ok((NodeKind::Open(Delim::Paren), pos + 1))
    } else if c == '[' {
        Ok((NodeKind::Open(Delim::Bracket), pos + 1))
    } else if c == '{' {
        Ok((NodeKind::Open(Delim::Brace), pos + 1))
    } else if c == ')' {
        if is_top(top, Delim::Paren) {
            Ok((NodeKind::Close(Delim::Paren), pos + 1))
        } else {
            Err(ParseErrorKind::UnexpectedClose)
        }
    } else if c == ']' {
        if is_top(top, Delim::Bracket) {
            Ok((NodeKind::Close(Delim::Bracket), pos + 1))
        } else {
            Err(ParseErrorKind::UnexpectedClose)
        }
    } else if c == '}' {
        if is_top(top, Delim::Brace) {
            Ok((NodeKind::Close(Delim::Brace), pos + 1))
        } else if is_top(top, Delim::Interpolation) {
            Ok((NodeKind::Close(Delim::Interpolation), pos + 1))
        } else {
            Err(ParseErrorKind::UnexpectedClose)
        }
    } else if c == '.' {
        Ok((NodeKind::Dot, pos + 1))
    } else if c == '*' {
        Ok((NodeKind::Star, pos + 1))
    } else if c == ',' {
        Ok((NodeKind::Comma, pos + 1))
    } else if c == '=' {
        Ok((NodeKind::Equals, pos + 1))
    } else if c == ':' {
        Ok((NodeKind::Colon, pos + 1))
    } else if (c == '+' || c == '-') && next_same {
        Ok((NodeKind::Step, pos + 2))
    } else {
        Ok((NodeKind::Punct, pos + 1))
    }
}

/// Reads the piece of text that starts at `pos`.
pub fn next_lexeme(src: &Vec<char>, pos: usize, top: Option<Delim>, place: Place) -> (r: Result<
    (NodeKind, usize),
    ParseErrorKind,
>)
    requires
        pos < src.len(),
    ensures
        match r {
            Ok(l) => lexeme_at(src@, pos as int, top, place) == Ok::<
                (NodeKind, int),
                ParseErrorKind,
            >((l.0, l.1 as int)) && pos < l.1 <= src.len(),
            Err(e) => lexeme_at(src@, pos as int, top, place) == Err::<
                (NodeKind, int),
                ParseErrorKind,
            >(e),
        },
{
    proof {
        reveal(lexeme_at);
        lemma_lexeme_progress(src@, pos as int, top, place);
    }
    if is_top(top, Delim::Template) {
        next_in_template(src, pos)
    } else if is_top(top, Delim::Children) {
        next_in_children(src, pos)
    } else if is_top(top, Delim::Tag) {
        next_in_tag(src, pos, place)
    } else {
        next_in_code(src, pos, top, place)
    }
}

} // verus!
