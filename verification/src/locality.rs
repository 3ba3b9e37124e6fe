//! Lexing is local: what is read at a place depends on the characters of
//! the piece itself and on the one or two characters after it, not on the
//! rest of the text. Two texts that agree there are read alike.

use crate::error::ParseErrorKind;
use crate::lexer::{
    attr_end, chunk_end, comment_end, is_name_char, is_name_start, is_space, is_word_char,
    lemma_attr_end, lemma_name_end, lemma_regex_end, lemma_text_end, lexeme_at, line_end,
    name_end, regex_end, space_end, string_end, text_end, word_end, Delim, NodeKind, Place,
};
use vstd::prelude::*;

verus! {

/// The character of `s` that stands `k` places after offset `p`.
pub open spec fn char_at(s: Seq<char>, p: int, k: int) -> char {
    s[p + k]
}

/// The texts `a` from `pa` on and `b` from `pb` on hold the same `len`
/// characters.
pub open spec fn agree(a: Seq<char>, pa: int, b: Seq<char>, pb: int, len: int) -> bool {
    &&& 0 <= pa
    &&& 0 <= pb
    &&& 0 <= len
    &&& pa + len <= a.len()
    &&& pb + len <= b.len()
    &&& forall|k: int| 0 <= k < len ==> #[trigger] char_at(a, pa, k) == char_at(b, pb, k)
}

/// The characters at `i` in `a` and at `j` in `b` end a piece alike: both
/// texts end there, or the two characters are equal, or both can start a
/// name.
pub open spec fn same_peek(a: Seq<char>, i: int, b: Seq<char>, j: int) -> bool {
    ||| i >= a.len() && j >= b.len()
    ||| 0 <= i < a.len() && 0 <= j < b.len() && (a[i] == b[j] || (is_name_start(a[i])
        && is_name_start(b[j])))
}

/// The characters at `i` in `a` and at `j` in `b` end a chunk alike: both
/// texts end there, or the two characters are equal and, where they are
/// `$`, so is what follows them.
pub open spec fn same_stop(a: Seq<char>, i: int, b: Seq<char>, j: int) -> bool {
    ||| i >= a.len() && j >= b.len()
    ||| 0 <= i < a.len() && 0 <= j < b.len() && a[i] == b[j] && (a[i] == '$' ==> (i + 1 >= a.len()
        && j + 1 >= b.len()) || (i + 1 < a.len() && j + 1 < b.len() && a[i + 1] == b[j + 1]))
}

/// Texts that agree hold equal subranges.
pub proof fn lemma_agree_text(a: Seq<char>, pa: int, b: Seq<char>, pb: int, len: int)
    requires
        agree(a, pa, b, pb, len),
    ensures
        a.subrange(pa, pa + len) == b.subrange(pb, pb + len),
{
    let x = a.subrange(pa, pa + len);
    let y = b.subrange(pb, pb + len);
    assert forall|k: int| 0 <= k < len implies #[trigger] x[k] == y[k] by {
        assert(char_at(a, pa, k) == char_at(b, pb, k));
    }
    assert(x =~= y);
}

pub proof fn lemma_space_local(a: Seq<char>, pa: int, b: Seq<char>, pb: int, len: int, k: int)
    requires
        agree(a, pa, b, pb, len),
        0 <= k <= len,
        space_end(a, pa + k) == pa + len,
        same_peek(a, pa + len, b, pb + len),
    ensures
        space_end(b, pb + k) == pb + len,
    decreases len - k,
{
    if k < len {
        assert(char_at(a, pa, k) == char_at(b, pb, k));
        lemma_space_local(a, pa, b, pb, len, k + 1);
    } else if pa + len < a.len() {
        crate::lexer::lemma_space_end(a, pa + len + 1);
    }
}

pub proof fn lemma_word_local(a: Seq<char>, pa: int, b: Seq<char>, pb: int, len: int, k: int)
    requires
        agree(a, pa, b, pb, len),
        0 <= k <= len,
        word_end(a, pa + k) == pa + len,
        same_peek(a, pa + len, b, pb + len),
    ensures
        word_end(b, pb + k) == pb + len,
    decreases len - k,
{
    if k < len {
        assert(char_at(a, pa, k) == char_at(b, pb, k));
        lemma_word_local(a, pa, b, pb, len, k + 1);
    } else if pa + len < a.len() {
        crate::lexer::lemma_word_end(a, pa + len + 1);
    }
}

pub proof fn lemma_line_local(a: Seq<char>, pa: int, b: Seq<char>, pb: int, len: int, k: int)
    requires
        agree(a, pa, b, pb, len),
        0 <= k <= len,
        line_end(a, pa + k) == pa + len,
        same_peek(a, pa + len, b, pb + len),
    ensures
        line_end(b, pb + k) == pb + len,
    decreases len - k,
{
    if k < len {
        assert(char_at(a, pa, k) == char_at(b, pb, k));
        lemma_line_local(a, pa, b, pb, len, k + 1);
    } else if pa + len < a.len() {
        crate::lexer::lemma_line_end(a, pa + len + 1);
    }
}

pub proof fn lemma_name_local(a: Seq<char>, pa: int, b: Seq<char>, pb: int, len: int, k: int)
    requires
        agree(a, pa, b, pb, len),
        0 <= k <= len,
        name_end(a, pa + k) == pa + len,
        same_peek(a, pa + len, b, pb + len),
    ensures
        name_end(b, pb + k) == pb + len,
    decreases len - k,
{
    if k < len {
        assert(char_at(a, pa, k) == char_at(b, pb, k));
        lemma_name_local(a, pa, b, pb, len, k + 1);
    } else if pa + len < a.len() {
        lemma_name_end(a, pa + len + 1);
    }
}

pub proof fn lemma_text_local(a: Seq<char>, pa: int, b: Seq<char>, pb: int, len: int, k: int)
    requires
        agree(a, pa, b, pb, len),
        0 <= k <= len,
        text_end(a, pa + k) == pa + len,
        same_peek(a, pa + len, b, pb + len),
    ensures
        text_end(b, pb + k) == pb + len,
    decreases len - k,
{
    if k < len {
        assert(char_at(a, pa, k) == char_at(b, pb, k));
        lemma_text_local(a, pa, b, pb, len, k + 1);
    } else if pa + len < a.len() {
        lemma_text_end(a, pa + len + 1);
    }
}

pub proof fn lemma_attr_local(
    a: Seq<char>,
    pa: int,
    b: Seq<char>,
    pb: int,
    len: int,
    k: int,
    quote: char,
)
    requires
        agree(a, pa, b, pb, len),
        0 <= k <= len,
        attr_end(a, pa + k, quote) == Some(pa + len),
    ensures
        attr_end(b, pb + k, quote) == Some(pb + len),
    decreases len - k,
{
    if k < len {
        assert(char_at(a, pa, k) == char_at(b, pb, k));
        if a[pa + k] != quote {
            lemma_attr_local(a, pa, b, pb, len, k + 1, quote);
        }
    } else if pa + k < a.len() {
        lemma_attr_end(a, pa + k, quote);
    }
}

pub proof fn lemma_regex_local(
    a: Seq<char>,
    pa: int,
    b: Seq<char>,
    pb: int,
    len: int,
    k: int,
    in_class: bool,
)
    requires
        agree(a, pa, b, pb, len),
        0 <= k <= len,
        regex_end(a, pa + k, in_class) == Some(pa + len),
        same_peek(a, pa + len, b, pb + len),
    ensures
        regex_end(b, pb + k, in_class) == Some(pb + len),
    decreases len - k,
{
    if k < len {
        assert(char_at(a, pa, k) == char_at(b, pb, k));
        if k + 1 < len {
            assert(char_at(a, pa, k + 1) == char_at(b, pb, k + 1));
        }
        let c = a[pa + k];
        if c == '\\' {
            if pa + k + 1 < a.len() && a[pa + k + 1] != '\n' {
                lemma_regex_end(a, pa + k + 2, in_class);
                lemma_regex_local(a, pa, b, pb, len, k + 2, in_class);
            }
        } else if c != '\n' {
            if in_class {
                lemma_regex_local(a, pa, b, pb, len, k + 1, c != ']');
            } else if c == '/' {
                crate::lexer::lemma_word_end(a, pa + k + 1);
                lemma_word_local(a, pa, b, pb, len, k + 1);
            } else {
                lemma_regex_local(a, pa, b, pb, len, k + 1, c == '[');
            }
        }
    } else if pa + k < a.len() {
        lemma_regex_end(a, pa + k, in_class);
    }
}

pub proof fn lemma_comment_local(a: Seq<char>, pa: int, b: Seq<char>, pb: int, len: int, k: int)
    requires
        agree(a, pa, b, pb, len),
        0 <= k <= len,
        comment_end(a, pa + k) == Some(pa + len),
    ensures
        comment_end(b, pb + k) == Some(pb + len),
    decreases len - k,
{
    if k + 1 < len {
        assert(char_at(a, pa, k) == char_at(b, pb, k));
        assert(char_at(a, pa, k + 1) == char_at(b, pb, k + 1));
        if !(a[pa + k] == '*' && a[pa + k + 1] == '/') {
            lemma_comment_local(a, pa, b, pb, len, k + 1);
        }
    } else if k + 1 < a.len() - pa {
        if !(a[pa + k] == '*' && a[pa + k + 1] == '/') {
            crate::lexer::lemma_comment_end(a, pa + k + 1);
        }
    }
}

pub proof fn lemma_string_local(
    a: Seq<char>,
    pa: int,
    b: Seq<char>,
    pb: int,
    len: int,
    k: int,
    quote: char,
)
    requires
        agree(a, pa, b, pb, len),
        0 <= k <= len,
        string_end(a, pa + k, quote) == Some(pa + len),
    ensures
        string_end(b, pb + k, quote) == Some(pb + len),
    decreases len - k,
{
    if k < len {
        assert(char_at(a, pa, k) == char_at(b, pb, k));
        let c = a[pa + k];
        if c == quote {
        } else if c == '\\' {
            if pa + k + 1 < a.len() {
                crate::lexer::lemma_string_end(a, pa + k + 2, quote);
                lemma_string_local(a, pa, b, pb, len, k + 2, quote);
            }
        } else if c != '\n' {
            lemma_string_local(a, pa, b, pb, len, k + 1, quote);
        }
    } else {
        if pa + k < a.len() {
            crate::lexer::lemma_string_end(a, pa + k, quote);
        }
    }
}

pub proof fn lemma_chunk_local(a: Seq<char>, pa: int, b: Seq<char>, pb: int, len: int, k: int)
    requires
        agree(a, pa, b, pb, len),
        0 <= k <= len,
        chunk_end(a, pa + k) == pa + len,
        same_stop(a, pa + len, b, pb + len),
    ensures
        chunk_end(b, pb + k) == pb + len,
    decreases len - k,
{
    if k < len {
        assert(char_at(a, pa, k) == char_at(b, pb, k));
        if k + 1 < len {
            assert(char_at(a, pa, k + 1) == char_at(b, pb, k + 1));
        }
        let c = a[pa + k];
        if c == '\\' {
            if pa + k + 1 < a.len() {
                crate::lexer::lemma_chunk_end(a, pa + k + 2);
                lemma_chunk_local(a, pa, b, pb, len, k + 2);
            }
        } else {
            crate::lexer::lemma_chunk_end(a, pa + k + 1);
            lemma_chunk_local(a, pa, b, pb, len, k + 1);
        }
    } else if pa + len < a.len() {
        crate::lexer::lemma_chunk_end(a, pa + len + 1);
        if pa + len + 2 <= a.len() {
            crate::lexer::lemma_chunk_end(a, pa + len + 2);
        }
    }
}

/// Two texts that agree on a piece and end it alike are read alike there,
/// after the same kind of piece and inside the same bracket: the piece has
/// the same kind and the same length in both.
pub proof fn lemma_lexeme_local(
    a: Seq<char>,
    pa: int,
    b: Seq<char>,
    pb: int,
    top: Option<Delim>,
    place: Place,
    len: int,
)
    requires
        len >= 1,
        agree(a, pa, b, pb, len),
        lexeme_at(a, pa, top, place) matches Ok(l) && l.1 == pa + len,
        same_peek(a, pa + len, b, pb + len),
        lexeme_at(a, pa, top, place)->Ok_0.0 == NodeKind::Chunk ==> same_stop(
            a,
            pa + len,
            b,
            pb + len,
        ),
    ensures
        lexeme_at(b, pb, top, place) == Ok::<(NodeKind, int), ParseErrorKind>(
            (lexeme_at(a, pa, top, place)->Ok_0.0, pb + len),
        ),
{
    reveal(lexeme_at);
    let kind = lexeme_at(a, pa, top, place)->Ok_0.0;
    assert(char_at(a, pa, 0) == char_at(b, pb, 0));
    if len >= 2 {
        assert(char_at(a, pa, 1) == char_at(b, pb, 1));
    }
    let c = a[pa];
    if top == Some(Delim::Template) {
        if kind == NodeKind::Chunk {
            lemma_chunk_local(a, pa, b, pb, len, 0);
        }
    } else if top == Some(Delim::Children) {
        if c == '{' {
        } else if c == '<' && pa + 1 < a.len() && a[pa + 1] == '/' {
            lemma_name_end(a, pa + 2);
            lemma_name_local(a, pa, b, pb, len, 2);
        } else if c == '<' {
        } else {
            lemma_text_local(a, pa, b, pb, len, 0);
        }
    } else if top == Some(Delim::Tag) {
        if is_space(c) {
            lemma_space_local(a, pa, b, pb, len, 0);
        } else if c == '/' && pa + 1 < a.len() && a[pa + 1] == '>' {
        } else if c == '>' {
        } else if c == '{' {
        } else if crate::lexer::is_quote(c) {
            lemma_attr_local(a, pa, b, pb, len, 1, c);
        } else if is_name_char(c) {
            lemma_name_local(a, pa, b, pb, len, 0);
            lemma_agree_text(a, pa, b, pb, len);
        } else {
        }
    } else if is_space(c) {
        lemma_space_local(a, pa, b, pb, len, 0);
    } else if c == '/' && pa + 1 < a.len() && a[pa + 1] == '/' {
        crate::lexer::lemma_line_end(a, pa);
        crate::lexer::lemma_line_end(a, pa + 1);
        lemma_line_local(a, pa, b, pb, len, 0);
    } else if c == '/' && pa + 1 < a.len() && a[pa + 1] == '*' {
        crate::lexer::lemma_comment_end(a, pa + 2);
        lemma_comment_local(a, pa, b, pb, len, 2);
    } else if c == '/' && place.is_open() {
        lemma_regex_local(a, pa, b, pb, len, 1, false);
    } else if crate::lexer::is_quote(c) {
        lemma_string_local(a, pa, b, pb, len, 1, c);
    } else if c == '`' {
    } else if is_word_char(c) {
        lemma_word_local(a, pa, b, pb, len, 0);
        lemma_agree_text(a, pa, b, pb, len);
    } else {
    }
}

} // verus!
