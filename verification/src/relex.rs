//! How the texts that the walk puts in place of nodes are read when the
//! emitted code is parsed again: the identifier of a style template is one
//! word, and a literal in normal form is one string literal.

use crate::ast_walker::{css_id, quoted};
use crate::error::ParseErrorKind;
use crate::lexer::{
    attr_end, is_quote, is_word_char, lexeme_at, string_end, word_end, word_kind, Delim, NodeKind,
    Place,
};
use crate::locality::{agree, char_at};
use crate::text::{decimal, digit};
use vstd::prelude::*;

verus! {

/// Every character of `text` is a word character.
pub open spec fn all_word(text: Seq<char>) -> bool {
    forall|k: int| 0 <= k < text.len() ==> is_word_char(#[trigger] text[k])
}

/// Decimal notation consists of digits, which are word characters.
pub proof fn lemma_decimal_is_word(n: nat)
    ensures
        all_word(decimal(n)),
        decimal(n).len() >= 1,
    decreases n,
{
    if n >= 10 {
        lemma_decimal_is_word(n / 10);
        let d = digit((n % 10) as int);
        assert(is_word_char(d));
        assert forall|k: int| 0 <= k < decimal(n).len() implies is_word_char(
            #[trigger] decimal(n)[k],
        ) by {
            if k < decimal(n / 10).len() {
                assert(decimal(n)[k] == decimal(n / 10)[k]);
            }
        }
    } else {
        assert(is_word_char(digit(n as int)));
    }
}

/// The identifier of a style template is a word that is no keyword.
pub proof fn lemma_css_id_is_word(n: nat)
    ensures
        all_word(css_id(n)),
        css_id(n).len() >= 7,
        css_id(n)[0] == '_',
        word_kind(css_id(n)) == NodeKind::Word,
{
    lemma_decimal_is_word(n);
    let head = seq!['_', '_', 'c', 's', 's', '_'];
    let id = css_id(n);
    assert forall|k: int| 0 <= k < id.len() implies is_word_char(#[trigger] id[k]) by {
        if k >= 6 {
            assert(id[k] == decimal(n)[k - 6]);
        } else {
            assert(id[k] == head[k]);
        }
    }
    assert(id[0] == head[0]);
    lemma_keywords_start_with_letters(id);
}

/// A word that starts with `_` is no keyword.
pub proof fn lemma_keywords_start_with_letters(text: Seq<char>)
    requires
        text.len() > 0,
        text[0] == '_',
    ensures
        word_kind(text) == NodeKind::Word,
{
    assert(!('0' <= text[0] && text[0] <= '9'));
    assert(crate::lexer::kw_import()[0] == 'i');
    assert(crate::lexer::kw_export()[0] == 'e');
    assert(crate::lexer::kw_from()[0] == 'f');
    assert(crate::lexer::kw_type()[0] == 't');
    assert(crate::lexer::kw_as()[0] == 'a');
    assert(crate::lexer::kw_css()[0] == 'c');
    assert(crate::lexer::kw_const()[0] == 'c');
    assert(crate::lexer::kw_let()[0] == 'l');
    assert(crate::lexer::kw_var()[0] == 'v');
    assert(crate::lexer::kw_return()[0] == 'r');
    assert(crate::lexer::kw_typeof()[0] == 't');
    assert(crate::lexer::kw_instanceof()[0] == 'i');
    assert(crate::lexer::kw_in()[0] == 'i');
    assert(crate::lexer::kw_of()[0] == 'o');
    assert(crate::lexer::kw_new()[0] == 'n');
    assert(crate::lexer::kw_delete()[0] == 'd');
    assert(crate::lexer::kw_void()[0] == 'v');
    assert(crate::lexer::kw_throw()[0] == 't');
    assert(crate::lexer::kw_case()[0] == 'c');
    assert(crate::lexer::kw_do()[0] == 'd');
    assert(crate::lexer::kw_else()[0] == 'e');
    assert(crate::lexer::kw_yield()[0] == 'y');
    assert(crate::lexer::kw_await()[0] == 'a');
    assert(crate::lexer::kw_default()[0] == 'd');
    assert(crate::lexer::kw_extends()[0] == 'e');
}

/// A run of word characters that ends at a character of another kind, or
/// with the text, is read to its end.
pub proof fn lemma_word_run_end(s: Seq<char>, p: int, len: int, k: int)
    requires
        0 <= p,
        0 <= k <= len,
        p + len <= s.len(),
        forall|j: int| 0 <= j < len ==> is_word_char(#[trigger] char_at(s, p, j)),
        p + len == s.len() || !is_word_char(s[p + len]),
    ensures
        word_end(s, p + k) == p + len,
    decreases len - k,
{
    if k < len {
        assert(is_word_char(char_at(s, p, k)));
        lemma_word_run_end(s, p, len, k + 1);
    }
}

/// Where the code holds the identifier of a style template, followed by
/// no word character, one word is read.
pub proof fn lemma_lex_identifier(
    code: Seq<char>,
    pb: int,
    top: Option<Delim>,
    place: Place,
    n: nat,
)
    requires
        0 <= pb,
        pb + css_id(n).len() <= code.len(),
        code.subrange(pb, pb + css_id(n).len()) == css_id(n),
        pb + css_id(n).len() == code.len() || !is_word_char(code[pb + css_id(n).len()]),
        top != Some(Delim::Template),
        top != Some(Delim::Tag),
        top != Some(Delim::Children),
    ensures
        lexeme_at(code, pb, top, place) == Ok::<(NodeKind, int), ParseErrorKind>(
            (NodeKind::Word, pb + css_id(n).len()),
        ),
{
    reveal(lexeme_at);
    let id = css_id(n);
    let len = id.len() as int;
    lemma_css_id_is_word(n);
    assert forall|j: int| 0 <= j < len implies is_word_char(#[trigger] char_at(code, pb, j)) by {
        assert(code.subrange(pb, pb + len)[j] == code[pb + j]);
        assert(is_word_char(id[j]));
    }
    lemma_word_run_end(code, pb, len, 0);
    assert(code[pb] == code.subrange(pb, pb + len)[0]);
}

/// Reading a string literal over a stretch on which two texts agree: as
/// long as the one reads on beyond the stretch, the other does too.
pub proof fn lemma_string_prefix(
    a: Seq<char>,
    pa: int,
    b: Seq<char>,
    pb: int,
    m: int,
    k: int,
    quote: char,
    ea: int,
    eb: int,
)
    requires
        agree(a, pa, b, pb, m),
        0 <= k <= m + 1,
        string_end(a, pa + k, quote) == Some(ea),
        ea > pa + m + 1,
        string_end(b, pb + m, quote) == Some(eb),
        string_end(b, pb + m + 1, quote) == Some(eb),
    ensures
        string_end(b, pb + k, quote) == Some(eb),
    decreases m + 1 - k,
{
    if k < m {
        assert(char_at(a, pa, k) == char_at(b, pb, k));
        let c = a[pa + k];
        if c == '\\' {
            lemma_string_prefix(a, pa, b, pb, m, k + 2, quote, ea, eb);
        } else {
            lemma_string_prefix(a, pa, b, pb, m, k + 1, quote, ea, eb);
        }
    }
}

/// Reading an attribute string over a stretch on which two texts agree.
pub proof fn lemma_attr_prefix(
    a: Seq<char>,
    pa: int,
    b: Seq<char>,
    pb: int,
    m: int,
    k: int,
    quote: char,
    ea: int,
    eb: int,
)
    requires
        agree(a, pa, b, pb, m),
        0 <= k <= m,
        attr_end(a, pa + k, quote) == Some(ea),
        ea > pa + m,
        attr_end(b, pb + m, quote) == Some(eb),
    ensures
        attr_end(b, pb + k, quote) == Some(eb),
    decreases m - k,
{
    if k < m {
        assert(char_at(a, pa, k) == char_at(b, pb, k));
        lemma_attr_prefix(a, pa, b, pb, m, k + 1, quote, ea, eb);
    }
}

/// Where the code holds a literal whose content is a stretch of the
/// content of a literal of the source followed by `.js`, one string literal
/// is read.
pub proof fn lemma_lex_literal(
    src: Seq<char>,
    pa: int,
    ea: int,
    code: Seq<char>,
    pb: int,
    top: Option<Delim>,
    place: Place,
    m: int,
)
    requires
        0 <= pa < src.len(),
        0 <= pb,
        0 <= m,
        lexeme_at(src, pa, top, place) == Ok::<(NodeKind, int), ParseErrorKind>(
            (NodeKind::Str, ea),
        ),
        pa + 1 + m + 3 <= ea - 1,
        pb + m + 5 <= code.len(),
        code.subrange(pb, pb + m + 5) == quoted(
            src[pa],
            src.subrange(pa + 1, pa + 1 + m) + seq!['.', 'j', 's'],
        ),
    ensures
        lexeme_at(code, pb, top, place) == Ok::<(NodeKind, int), ParseErrorKind>(
            (NodeKind::Str, pb + m + 5),
        ),
{
    reveal(lexeme_at);
    crate::lexer::lemma_lexeme_progress(src, pa, top, place);
    let q = src[pa];
    let text = quoted(q, src.subrange(pa + 1, pa + 1 + m) + seq!['.', 'j', 's']);
    assert(text.len() == m + 5);
    assert forall|j: int| 0 <= j < m + 5 implies code[pb + j] == #[trigger] text[j] by {
        assert(code.subrange(pb, pb + m + 5)[j] == code[pb + j]);
    }
    assert(code[pb] == text[0]);
    assert(code[pb + 1 + m] == text[1 + m]);
    assert(code[pb + 2 + m] == text[2 + m]);
    assert(code[pb + 3 + m] == text[3 + m]);
    assert(code[pb + 4 + m] == text[4 + m]);
    assert(text[0] == q);
    assert(text[1 + m] == '.');
    assert(text[2 + m] == 'j');
    assert(text[3 + m] == 's');
    assert(text[4 + m] == q);
    assert(is_quote(q));
    let eb = pb + m + 5;
    assert(agree(src, pa + 1, code, pb + 1, m)) by {
        assert forall|k: int| 0 <= k < m implies #[trigger] char_at(src, pa + 1, k) == char_at(
            code,
            pb + 1,
            k,
        ) by {
            assert(code[pb + 1 + k] == text[1 + k]);
            assert(src.subrange(pa + 1, pa + 1 + m)[k] == src[pa + 1 + k]);
        }
    }
    if top == Some(Delim::Tag) {
        assert(attr_end(code, pb + 4 + m, q) == Some(eb));
        assert(attr_end(code, pb + 3 + m, q) == Some(eb));
        assert(attr_end(code, pb + 2 + m, q) == Some(eb));
        assert(attr_end(code, pb + 1 + m, q) == Some(eb));
        lemma_attr_prefix(src, pa + 1, code, pb + 1, m, 0, q, ea, eb);
    } else {
        assert(string_end(code, pb + 4 + m, q) == Some(eb));
        assert(string_end(code, pb + 3 + m, q) == Some(eb));
        assert(string_end(code, pb + 2 + m, q) == Some(eb));
        assert(string_end(code, pb + 1 + m, q) == Some(eb));
        lemma_string_prefix(src, pa + 1, code, pb + 1, m, 0, q, ea, eb);
    }
}

} // verus!
