//! A parsed module: the source text and its syntax tree.
//!
//! The tree is kept in document order, one node after the other. A leaf
//! covers a piece of text. A bracketed group is an opening node, the nodes
//! of its content, and its closing node; the two brackets point at each
//! other through `link`. The leaves and brackets lie side by side and
//! cover the whole source, so the text can be rebuilt from the tree
//! without loss.
//!
//! Parsing first builds the tree from the pieces and brackets of the text
//! and then refuses the forms that the syntax does not allow. An error in
//! a piece or a bracket is therefore reported before a malformed form,
//! wherever the two stand.

use crate::classify::{find_malformed, first_malformed, lemma_first_malformed};
use crate::error::{ParseError, ParseErrorKind};
use crate::lexer::{
    is_decl_word, is_prefix_word, is_quote, kw_as, kw_css, kw_export, kw_from, kw_import, kw_type,
    lemma_attr_end, lemma_comment_end, lemma_lexeme_context, lemma_lexeme_progress, lemma_line_end, lemma_regex_end,
    lemma_string_end, lemma_word_end, lexeme_at, line_run, next_lexeme, word_run, Delim,
    NodeKind, Place,
};
use crate::span::Span;
use crate::text::{
    advance, chars_of, column_at, law_byte_offsets_fit_strings, lemma_position_bounds, line_at,
    utf8_offset,
};
use vstd::string::StringSliceAdditionalSpecFns;
use vstd::prelude::*;

verus! {

/// One node of the syntax tree.
#[derive(Clone, Copy, Debug, PartialEq, Eq, Structural)]
pub struct Node {
    pub kind: NodeKind,
    pub span: Span,
    /// For an opening bracket the index of its closing bracket, for a
    /// closing bracket the index of its opening one, for any other node its
    /// own index.
    pub link: usize,
}

/// A module after parsing.
pub struct AlefComponentModule {
    pub specifier: Vec<char>,
    pub source: Vec<char>,
    pub nodes: Vec<Node>,
}

/// The span of `start..end` in `src`.
pub open spec fn span_at(src: Seq<char>, start: int, end: int) -> Span {
    Span {
        start: start as usize,
        end: end as usize,
        line: line_at(src, start) as usize,
        column: column_at(src, start) as usize,
    }
}

/// The innermost open bracket, given the indices of all open ones.
pub open spec fn top_of(nodes: Seq<Node>, stack: Seq<usize>) -> Option<Delim> {
    if stack.len() == 0 {
        None
    } else {
        match nodes[stack.last() as int].kind {
            NodeKind::Open(d) => Some(d),
            _ => None,
        }
    }
}

/// What came before the end of `nodes`: the place after the last node
/// that is neither whitespace nor comment.
pub open spec fn place_of(nodes: Seq<Node>) -> Place
    decreases nodes.len(),
{
    if nodes.len() == 0 {
        Place::Start
    } else {
        nodes.last().kind.place_after(place_of(nodes.drop_last()))
    }
}

/// The kind of error for text that ends while a bracket of this kind is
/// open.
pub open spec fn unclosed_kind(kind: NodeKind) -> ParseErrorKind {
    if kind == NodeKind::Open(Delim::Template) {
        ParseErrorKind::UnterminatedTemplate
    } else if kind == NodeKind::Open(Delim::Tag) || kind == NodeKind::Open(Delim::Children) {
        ParseErrorKind::UnterminatedElement
    } else {
        ParseErrorKind::UnclosedDelimiter
    }
}

/// The error for text that ends while the bracket at `nodes[open]` is open.
pub open spec fn unclosed(nodes: Seq<Node>, open: int) -> ParseError {
    let at = nodes[open];
    ParseError {
        kind: unclosed_kind(at.kind),
        offset: at.span.start,
        line: at.span.line,
        column: at.span.column,
    }
}

/// The error for a piece of text at `pos` that cannot be read.
pub open spec fn error_at(src: Seq<char>, pos: int, kind: ParseErrorKind) -> ParseError {
    ParseError {
        kind,
        offset: pos as usize,
        line: line_at(src, pos) as usize,
        column: column_at(src, pos) as usize,
    }
}

/// The nodes after a closing bracket `close` has been added that matches
/// the opening bracket at index `open`.
pub open spec fn close_group(nodes: Seq<Node>, open: int, close: Node) -> Seq<Node> {
    nodes.update(open, Node { link: nodes.len() as usize, ..nodes[open] }).push(
        Node { link: open as usize, ..close },
    )
}

/// Parsing from offset `pos` on, with `nodes` read so far and `stack`
/// holding the indices of the brackets that are still open.
pub open spec fn parse_from(src: Seq<char>, pos: int, nodes: Seq<Node>, stack: Seq<usize>) -> Result<
    Seq<Node>,
    ParseError,
>
    decreases src.len() - pos,
{
    if pos < 0 || pos >= src.len() {
        if stack.len() == 0 {
            Ok(nodes)
        } else {
            Err(unclosed(nodes, stack.last() as int))
        }
    } else {
        match lexeme_at(src, pos, top_of(nodes, stack), place_of(nodes)) {
            Err(kind) => Err(error_at(src, pos, kind)),
            Ok((kind, end)) => {
                proof {
                    lemma_lexeme_progress(src, pos, top_of(nodes, stack), place_of(nodes));
                }
                let node = Node { kind, span: span_at(src, pos, end), link: nodes.len() as usize };
                match kind {
                    NodeKind::Open(_) => parse_from(
                        src,
                        end,
                        nodes.push(node),
                        stack.push(nodes.len() as usize),
                    ),
                    NodeKind::Close(_) => parse_from(
                        src,
                        end,
                        close_group(nodes, stack.last() as int, node),
                        stack.drop_last(),
                    ),
                    _ => parse_from(src, end, nodes.push(node), stack),
                }
            },
        }
    }
}

/// The tree of `src` as its pieces and brackets give it, or the first
/// piece that cannot be read, or the innermost bracket that is left open.
pub open spec fn tree_model(src: Seq<char>) -> Result<Seq<Node>, ParseError> {
    parse_from(src, 0, Seq::empty(), Seq::empty())
}

/// The error for a form at node `at` that the syntax does not allow.
pub open spec fn form_error(nodes: Seq<Node>, at: int, kind: ParseErrorKind) -> ParseError {
    ParseError {
        kind,
        offset: nodes[at].span.start,
        line: nodes[at].span.line,
        column: nodes[at].span.column,
    }
}

/// The syntax tree of `src`, or the first error in it. A text whose pieces
/// and brackets are in order is still refused where it holds a form that
/// the syntax does not allow: an import or export that names no source
/// where one is due, or a declaration of variables that declares nothing.
pub open spec fn parse_model(src: Seq<char>) -> Result<Seq<Node>, ParseError> {
    match tree_model(src) {
        Err(e) => Err(e),
        Ok(nodes) => match first_malformed(nodes, 0) {
            Some((at, kind)) => Err(form_error(nodes, at, kind)),
            None => Ok(nodes),
        },
    }
}

/// What the kind of a node says about the text it covers.
pub open spec fn kind_fits(src: Seq<char>, node: Node) -> bool {
    let s = node.span;
    let text = s.text(src);
    match node.kind {
        NodeKind::LineComment => s.end - s.start >= 2 && src[s.start as int] == '/' && src[s.start
            + 1] == '/' && line_run(src, s.start as int, s.end as int),
        NodeKind::BlockComment => s.end - s.start >= 4 && src[s.start as int] == '/'
            && src[s.start + 1] == '*' && src[s.end - 2] == '*' && src[s.end - 1] == '/',
        NodeKind::Word => word_run(src, s.start as int, s.end as int),
        NodeKind::Import => word_run(src, s.start as int, s.end as int) && text == kw_import(),
        NodeKind::Export => word_run(src, s.start as int, s.end as int) && text == kw_export(),
        NodeKind::From => word_run(src, s.start as int, s.end as int) && text == kw_from(),
        NodeKind::Type => word_run(src, s.start as int, s.end as int) && text == kw_type(),
        NodeKind::As => word_run(src, s.start as int, s.end as int) && text == kw_as(),
        NodeKind::Decl => word_run(src, s.start as int, s.end as int) && is_decl_word(text),
        NodeKind::Prefix => is_prefix_word(text),
        NodeKind::CssTag => word_run(src, s.start as int, s.end as int) && text == kw_css(),
        NodeKind::Str => s.end - s.start >= 2 && is_quote(src[s.start as int]) && src[s.end - 1]
            == src[s.start as int],
        NodeKind::Regex => s.end - s.start >= 2 && src[s.start as int] == '/',
        NodeKind::Open(Delim::Template) => s.end == s.start + 1 && src[s.start as int] == '`',
        NodeKind::Close(Delim::Template) => s.end == s.start + 1 && src[s.start as int] == '`',
        NodeKind::Open(Delim::Interpolation) => s.end == s.start + 2 && src[s.start as int] == '$'
            && src[s.start + 1] == '{',
        NodeKind::Close(Delim::Interpolation) => s.end == s.start + 1 && src[s.start as int]
            == '}',
        NodeKind::Open(Delim::Tag) => s.end == s.start + 1 && src[s.start as int] == '<',
        NodeKind::Open(Delim::Children) => s.end == s.start + 1 && src[s.start as int] == '>',
        NodeKind::Close(Delim::Children) => s.end - s.start >= 2 && src[s.start as int] == '<'
            && src[s.start + 1] == '/',
        NodeKind::Close(Delim::Tag) => src[s.end - 1] == '>',
        _ => true,
    }
}

/// The brackets pair up: `link` leads from each bracket to its partner,
/// and an opening bracket without a partner is listed in `open`.
pub open spec fn link_ok(nodes: Seq<Node>, k: int, open: Seq<usize>) -> bool {
    let nd = nodes[k];
    match nd.kind {
        NodeKind::Open(d) => (nd.link == k && open.contains(k as usize)) || (k < nd.link
            < nodes.len() && nodes[nd.link as int].kind == NodeKind::Close(d)
            && nodes[nd.link as int].link == k),
        NodeKind::Close(d) => nd.link < k && nodes[nd.link as int].kind == NodeKind::Open(d)
            && nodes[nd.link as int].link == k,
        _ => nd.link == k,
    }
}

/// Node `k` ends where the node after it starts.
pub open spec fn adjacent(nodes: Seq<Node>, k: int) -> bool {
    nodes[k].span.end == nodes[k + 1].span.start
}

/// The nodes are non-empty, lie side by side from offset zero, and end
/// at `upto`.
pub open spec fn tiled(src: Seq<char>, nodes: Seq<Node>, upto: int) -> bool {
    &&& nodes.len() == 0 ==> upto == 0
    &&& nodes.len() > 0 ==> nodes[0].span.start == 0 && nodes.last().span.end == upto
    &&& forall|k: int|
        0 <= k < nodes.len() ==> (#[trigger] nodes[k]).span.start < nodes[k].span.end
            && nodes[k].span.within(src)
    &&& forall|k: int| 0 <= k < nodes.len() - 1 ==> #[trigger] adjacent(nodes, k)
}

/// Groups nest: where node `k` lies inside the group that node `o` opens,
/// the partner of `k` lies inside that group too.
pub open spec fn inside_ok(nodes: Seq<Node>, o: int, k: int) -> bool {
    nodes[o].kind is Open && k < nodes[o].link ==> o < nodes[k].link < nodes[o].link
}

/// Node `k` has its partner after the open bracket `stack[j]`.
pub open spec fn encloses(nodes: Seq<Node>, stack: Seq<usize>, j: int, k: int) -> bool {
    stack[j] < nodes[k].link
}

/// The invariant of a finished tree over `src`: the nodes cover the
/// source side by side, each has the text of its kind, and the brackets
/// pair up and nest.
pub open spec fn nodes_wf(src: Seq<char>, nodes: Seq<Node>) -> bool {
    &&& tiled(src, nodes, src.len() as int)
    &&& forall|k: int| 0 <= k < nodes.len() ==> kind_fits(src, #[trigger] nodes[k])
    &&& forall|k: int| 0 <= k < nodes.len() ==> #[trigger] link_ok(nodes, k, Seq::empty())
    &&& forall|o: int, k: int| 0 <= o < k < nodes.len() ==> #[trigger] inside_ok(nodes, o, k)
}

/// Offset at which node `i` starts; the end of the text for the index
/// after the last node.
pub open spec fn offset_of(src: Seq<char>, nodes: Seq<Node>, i: int) -> int {
    if 0 <= i < nodes.len() {
        nodes[i].span.start as int
    } else {
        src.len() as int
    }
}

/// Later nodes start later: a node ends at or before the start of every
/// node after it.
pub proof fn lemma_offsets(src: Seq<char>, nodes: Seq<Node>, a: int, b: int)
    requires
        nodes_wf(src, nodes),
        0 <= a <= b <= nodes.len(),
    ensures
        offset_of(src, nodes, a) <= offset_of(src, nodes, b) <= src.len(),
        a < b ==> nodes[a].span.end <= offset_of(src, nodes, b),
    decreases b - a,
{
    if a < nodes.len() {
        assert(nodes[a].span.within(src));
    }
    if b < nodes.len() {
        assert(nodes[b].span.within(src));
    }
    if a < b {
        lemma_offsets(src, nodes, a + 1, b);
        if a + 1 < nodes.len() {
            assert(adjacent(nodes, a));
            assert(nodes[a + 1].span.within(src));
        }
    }
}

/// The invariant of a tree under construction, read up to `pos`.
pub open spec fn parsing_wf(src: Seq<char>, pos: int, nodes: Seq<Node>, stack: Seq<usize>) -> bool {
    &&& 0 <= pos <= src.len() <= usize::MAX
    &&& tiled(src, nodes, pos)
    &&& forall|k: int| 0 <= k < nodes.len() ==> kind_fits(src, #[trigger] nodes[k])
    &&& forall|k: int| 0 <= k < nodes.len() ==> #[trigger] link_ok(nodes, k, stack)
    &&& forall|j: int|
        0 <= j < stack.len() ==> (#[trigger] stack[j]) < nodes.len() && nodes[stack[j] as int].link
            == stack[j] && nodes[stack[j] as int].kind is Open
    &&& forall|i: int, j: int| 0 <= i < j < stack.len() ==> stack[i] < stack[j]
    &&& forall|o: int, k: int| 0 <= o < k < nodes.len() ==> #[trigger] inside_ok(nodes, o, k)
    &&& forall|j: int, k: int|
        0 <= j < stack.len() && stack[j] < k < nodes.len() ==> #[trigger] encloses(
            nodes,
            stack,
            j,
            k,
        )
}

/// What `lexeme_at` reads has the text that its kind promises.
#[verifier::rlimit(60)]
pub proof fn lemma_lexeme_fits(src: Seq<char>, pos: int, top: Option<Delim>, place: Place)
    requires
        0 <= pos < src.len() <= usize::MAX,
    ensures
        lexeme_at(src, pos, top, place) matches Ok(l) ==> pos < l.1 <= src.len() && kind_fits(
            src,
            Node { kind: l.0, span: span_at(src, pos, l.1), link: 0 },
        ),
{
    reveal(lexeme_at);
    lemma_lexeme_progress(src, pos, top, place);
    lemma_string_end(src, pos + 1, src[pos]);
    lemma_attr_end(src, pos + 1, src[pos]);
    lemma_regex_end(src, pos + 1, false);
    lemma_word_end(src, pos);
    lemma_line_end(src, pos);
    if pos + 2 <= src.len() {
        lemma_comment_end(src, pos + 2);
        crate::lexer::lemma_name_end(src, pos + 2);
    }
}

#[verifier::rlimit(60)]
proof fn lemma_step(src: Seq<char>, pos: int, nodes: Seq<Node>, stack: Seq<usize>)
    requires
        parsing_wf(src, pos, nodes, stack),
        pos < src.len(),
        lexeme_at(src, pos, top_of(nodes, stack), place_of(nodes)) is Ok,
    ensures
        ({
            let l = lexeme_at(src, pos, top_of(nodes, stack), place_of(nodes))->Ok_0;
            let node = Node { kind: l.0, span: span_at(src, pos, l.1), link: nodes.len() as usize };
            match l.0 {
                NodeKind::Open(_) => parsing_wf(
                    src,
                    l.1,
                    nodes.push(node),
                    stack.push(nodes.len() as usize),
                ),
                NodeKind::Close(_) => stack.len() > 0 && parsing_wf(
                    src,
                    l.1,
                    close_group(nodes, stack.last() as int, node),
                    stack.drop_last(),
                ),
                _ => parsing_wf(src, l.1, nodes.push(node), stack),
            }
        }),
{
    let top = top_of(nodes, stack);
    let l = lexeme_at(src, pos, top, place_of(nodes))->Ok_0;
    let n = nodes.len() as int;
    let node = Node { kind: l.0, span: span_at(src, pos, l.1), link: n as usize };
    lemma_lexeme_fits(src, pos, top, place_of(nodes));
    lemma_lexeme_context(src, pos, top, place_of(nodes));
    lemma_position_bounds(src, pos);
    assert(n <= pos) by {
        lemma_tiled_count(src, nodes, pos);
    }
    assert(node.span.within(src));
    assert(kind_fits(src, node));
    match l.0 {
        NodeKind::Open(d) => {
            let nodes2 = nodes.push(node);
            let stack2 = stack.push(n as usize);
            assert(stack2[stack.len() as int] == n as usize);
            lemma_tiled_push(src, nodes, pos, node);
            assert forall|k: int| 0 <= k < nodes2.len() implies #[trigger] link_ok(
                nodes2,
                k,
                stack2,
            ) by {
                if k < n {
                    assert(link_ok(nodes, k, stack));
                    if stack.contains(k as usize) {
                        let j = choose|j: int| 0 <= j < stack.len() && stack[j] == k as usize;
                        assert(stack2[j] == k as usize);
                    }
                }
            }
            assert forall|j: int| 0 <= j < stack2.len() implies (#[trigger] stack2[j])
                < nodes2.len() && nodes2[stack2[j] as int].link == stack2[j]
                && nodes2[stack2[j] as int].kind is Open by {
                if j < stack.len() {
                    assert(stack2[j] == stack[j]);
                }
            }
            assert forall|i: int, j: int| 0 <= i < j < stack2.len() implies stack2[i]
                < stack2[j] by {
                assert(stack2[i] == stack[i]);
                if j < stack.len() {
                    assert(stack2[j] == stack[j]);
                }
            }
            lemma_nesting_push(nodes, stack, node);
            assert forall|j: int, k: int|
                0 <= j < stack2.len() && stack2[j] < k < nodes2.len() implies #[trigger] encloses(
                nodes2,
                stack2,
                j,
                k,
            ) by {
                if j < stack.len() {
                    assert(stack2[j] == stack[j]);
                    if k < n {
                        assert(encloses(nodes, stack, j, k));
                    }
                }
            }
            assert(parsing_wf(src, l.1, nodes2, stack2));
        },
        NodeKind::Close(d) => {
            assert(stack.len() > 0);
            let o = stack.last() as int;
            assert(stack[stack.len() - 1] == o as usize);
            let nodes2 = close_group(nodes, o, node);
            let stack2 = stack.drop_last();
            assert(nodes[o].kind == NodeKind::Open(d));
            assert forall|k: int| 0 <= k < nodes2.len() implies #[trigger] link_ok(
                nodes2,
                k,
                stack2,
            ) by {
                if k < n && k != o {
                    assert(link_ok(nodes, k, stack));
                    if stack.contains(k as usize) {
                        let j = choose|j: int| 0 <= j < stack.len() && stack[j] == k as usize;
                        assert(j < stack.len() - 1);
                        assert(stack2[j] == k as usize);
                    }
                    let nd = nodes[k];
                    if nd.link != k {
                        assert(link_ok(nodes, nd.link as int, stack));
                    }
                }
            }
            assert forall|j: int| 0 <= j < stack2.len() implies (#[trigger] stack2[j])
                < nodes2.len() && nodes2[stack2[j] as int].link == stack2[j]
                && nodes2[stack2[j] as int].kind is Open by {
                assert(stack2[j] == stack[j]);
            }
            assert forall|i: int, j: int| 0 <= i < j < stack2.len() implies stack2[i]
                < stack2[j] by {
                assert(stack2[i] == stack[i]);
                assert(stack2[j] == stack[j]);
            }
            assert forall|k: int| 0 <= k < nodes2.len() implies kind_fits(
                src,
                #[trigger] nodes2[k],
            ) by {
                if k < n {
                    assert(kind_fits(src, nodes[k]));
                }
            }
            assert forall|a: int, k: int| 0 <= a < k < nodes2.len() implies #[trigger] inside_ok(
                nodes2,
                a,
                k,
            ) by {
                assert(link_ok(nodes, a, stack));
                if a == o {
                    if k < n {
                        assert(encloses(nodes, stack, stack.len() - 1, k));
                        assert(link_ok(nodes, k, stack));
                    }
                } else if nodes[a].kind is Open && k < nodes[a].link {
                    let c = nodes[a].link as int;
                    if k == o {
                        assert(encloses(nodes, stack, stack.len() - 1, c));
                    } else {
                        assert(inside_ok(nodes, a, k));
                    }
                }
            }
            assert forall|j: int, k: int|
                0 <= j < stack2.len() && stack2[j] < k < nodes2.len() implies #[trigger] encloses(
                nodes2,
                stack2,
                j,
                k,
            ) by {
                assert(stack2[j] == stack[j]);
                assert(stack[j] < stack[stack.len() - 1]);
                if k < n && k != o {
                    assert(encloses(nodes, stack, j, k));
                }
            }
            assert(tiled(src, nodes2, l.1)) by {
                assert forall|k: int| 0 <= k < nodes2.len() implies (#[trigger] nodes2[k]).span.start
                    < nodes2[k].span.end && nodes2[k].span.within(src) by {
                    if k < n {
                        assert(nodes[k].span.within(src));
                    }
                }
                assert forall|k: int| 0 <= k < nodes2.len() - 1 implies #[trigger] adjacent(
                    nodes2,
                    k,
                ) by {
                    if k < n - 1 {
                        assert(adjacent(nodes, k));
                    }
                }
            }
            assert(parsing_wf(src, l.1, nodes2, stack2));
        },
        _ => {
            let nodes2 = nodes.push(node);
            lemma_tiled_push(src, nodes, pos, node);
            assert forall|k: int| 0 <= k < nodes2.len() implies #[trigger] link_ok(
                nodes2,
                k,
                stack,
            ) by {
                if k < n {
                    assert(link_ok(nodes, k, stack));
                }
            }
            lemma_nesting_push(nodes, stack, node);
            assert forall|j: int, k: int|
                0 <= j < stack.len() && stack[j] < k < nodes2.len() implies #[trigger] encloses(
                nodes2,
                stack,
                j,
                k,
            ) by {
                if k < n {
                    assert(encloses(nodes, stack, j, k));
                }
            }
            assert(parsing_wf(src, l.1, nodes2, stack));
        },
    }
}

/// A node added at the end lies inside no closed group.
proof fn lemma_nesting_push(nodes: Seq<Node>, stack: Seq<usize>, node: Node)
    requires
        node.link == nodes.len(),
        forall|k: int| 0 <= k < nodes.len() ==> #[trigger] link_ok(nodes, k, stack),
        forall|o: int, k: int| 0 <= o < k < nodes.len() ==> #[trigger] inside_ok(nodes, o, k),
    ensures
        forall|o: int, k: int|
            0 <= o < k < nodes.push(node).len() ==> #[trigger] inside_ok(nodes.push(node), o, k),
{
    let nodes2 = nodes.push(node);
    assert forall|o: int, k: int| 0 <= o < k < nodes2.len() implies #[trigger] inside_ok(
        nodes2,
        o,
        k,
    ) by {
        assert(link_ok(nodes, o, stack));
        if k < nodes.len() {
            assert(inside_ok(nodes, o, k));
        }
    }
}

proof fn lemma_tiled_push(src: Seq<char>, nodes: Seq<Node>, pos: int, node: Node)
    requires
        tiled(src, nodes, pos),
        node.span.start == pos,
        node.span.start < node.span.end,
        node.span.within(src),
    ensures
        tiled(src, nodes.push(node), node.span.end as int),
{
    let nodes2 = nodes.push(node);
    assert forall|k: int| 0 <= k < nodes2.len() - 1 implies #[trigger] adjacent(nodes2, k) by {
        if k < nodes.len() - 1 {
            assert(adjacent(nodes, k));
        }
    }
}

/// Non-empty nodes that lie side by side are no more than the characters
/// they cover.
pub proof fn lemma_tiled_count(src: Seq<char>, nodes: Seq<Node>, upto: int)
    requires
        tiled(src, nodes, upto),
    ensures
        nodes.len() <= upto,
    decreases nodes.len(),
{
    if nodes.len() > 0 {
        let init = nodes.drop_last();
        let last = nodes.last();
        assert(nodes[nodes.len() - 1] == last);
        assert forall|k: int| 0 <= k < init.len() implies (#[trigger] init[k]).span.start
            < init[k].span.end && init[k].span.within(src) by {
            assert(init[k] == nodes[k]);
        }
        assert forall|k: int| 0 <= k < init.len() - 1 implies #[trigger] adjacent(init, k) by {
            assert(adjacent(nodes, k));
            assert(init[k] == nodes[k]);
            assert(init[k + 1] == nodes[k + 1]);
        }
        if init.len() > 0 {
            assert(init[0] == nodes[0]);
            assert(init.last() == nodes[nodes.len() - 2]);
            assert(adjacent(nodes, nodes.len() - 2));
        }
        lemma_tiled_count(src, init, last.span.start as int);
    }
}

/// Parsing keeps its invariant: what it returns is a well-formed tree, and
/// an error points into the text.
pub proof fn lemma_parse_from_wf(src: Seq<char>, pos: int, nodes: Seq<Node>, stack: Seq<usize>)
    requires
        parsing_wf(src, pos, nodes, stack),
    ensures
        match parse_from(src, pos, nodes, stack) {
            Ok(tree) => nodes_wf(src, tree),
            Err(e) => e.offset <= src.len() && e.line == line_at(src, e.offset as int) && e.column
                == column_at(src, e.offset as int),
        },
    decreases src.len() - pos,
{
    if pos >= src.len() {
        if stack.len() == 0 {
            assert forall|k: int| 0 <= k < nodes.len() implies #[trigger] link_ok(
                nodes,
                k,
                Seq::empty(),
            ) by {
                assert(link_ok(nodes, k, stack));
                assert(!stack.contains(k as usize));
            }
        } else {
            let o = stack.last() as int;
            assert(stack[stack.len() - 1] == o as usize);
            assert(nodes[o].span.within(src));
        }
    } else {
        lemma_position_bounds(src, pos);
        match lexeme_at(src, pos, top_of(nodes, stack), place_of(nodes)) {
            Err(kind) => {},
            Ok((kind, end)) => {
                lemma_lexeme_progress(src, pos, top_of(nodes, stack), place_of(nodes));
                lemma_step(src, pos, nodes, stack);
                let node = Node { kind, span: span_at(src, pos, end), link: nodes.len() as usize };
                match kind {
                    NodeKind::Open(_) => lemma_parse_from_wf(
                        src,
                        end,
                        nodes.push(node),
                        stack.push(nodes.len() as usize),
                    ),
                    NodeKind::Close(_) => lemma_parse_from_wf(
                        src,
                        end,
                        close_group(nodes, stack.last() as int, node),
                        stack.drop_last(),
                    ),
                    _ => lemma_parse_from_wf(src, end, nodes.push(node), stack),
                }
            },
        }
    }
}

/// The tree `fin` keeps what `nodes` has settled: the kind and the span of
/// every node, and the partner of every bracket that has one.
pub open spec fn extends(nodes: Seq<Node>, fin: Seq<Node>) -> bool {
    &&& nodes.len() <= fin.len()
    &&& forall|k: int|
        0 <= k < nodes.len() ==> (#[trigger] fin[k]).kind == nodes[k].kind && fin[k].span
            == nodes[k].span && (nodes[k].link != k ==> fin[k].link == nodes[k].link)
}

/// The state that parsing reaches from a state in which a piece can be
/// read: the offset after the piece, the nodes and the open brackets.
pub open spec fn step(src: Seq<char>, pos: int, nodes: Seq<Node>, stack: Seq<usize>) -> (
    int,
    Seq<Node>,
    Seq<usize>,
) {
    let l = lexeme_at(src, pos, top_of(nodes, stack), place_of(nodes))->Ok_0;
    let node = Node { kind: l.0, span: span_at(src, pos, l.1), link: nodes.len() as usize };
    match l.0 {
        NodeKind::Open(_) => (l.1, nodes.push(node), stack.push(nodes.len() as usize)),
        NodeKind::Close(_) => (
            l.1,
            close_group(nodes, stack.last() as int, node),
            stack.drop_last(),
        ),
        _ => (l.1, nodes.push(node), stack),
    }
}

/// Reading one piece keeps the invariant of parsing, makes progress, and
/// leaves the result of parsing as it is.
pub proof fn lemma_step_state(src: Seq<char>, pos: int, nodes: Seq<Node>, stack: Seq<usize>)
    requires
        parsing_wf(src, pos, nodes, stack),
        pos < src.len(),
        lexeme_at(src, pos, top_of(nodes, stack), place_of(nodes)) is Ok,
    ensures
        ({
            let next = step(src, pos, nodes, stack);
            &&& pos < next.0 <= src.len()
            &&& nodes.len() <= pos
            &&& place_of(next.1) == lexeme_at(
                src,
                pos,
                top_of(nodes, stack),
                place_of(nodes),
            )->Ok_0.0.place_after(place_of(nodes))
            &&& parsing_wf(src, next.0, next.1, next.2)
            &&& parse_from(src, pos, nodes, stack) == parse_from(src, next.0, next.1, next.2)
            &&& extends(nodes, next.1)
            &&& next.1.len() == nodes.len() + 1
            &&& next.1[nodes.len() as int].kind == lexeme_at(src, pos, top_of(nodes, stack), place_of(nodes))->Ok_0.0
            &&& next.1[nodes.len() as int].span == span_at(src, pos, next.0)
            &&& lexeme_at(src, pos, top_of(nodes, stack), place_of(nodes))->Ok_0.0 is Close ==> stack.len() > 0
                && next.1[nodes.len() as int].link == stack.last()
        }),
{
    lemma_lexeme_progress(src, pos, top_of(nodes, stack), place_of(nodes));
    lemma_step(src, pos, nodes, stack);
    lemma_tiled_count(src, nodes, pos);
    let l = lexeme_at(src, pos, top_of(nodes, stack), place_of(nodes))->Ok_0;
    let node = Node { kind: l.0, span: span_at(src, pos, l.1), link: nodes.len() as usize };
    lemma_place_push(nodes, node);
    let next = step(src, pos, nodes, stack);
    assert(next.1.last().kind == l.0);
}

/// The result of parsing keeps what was settled before.
pub proof fn lemma_parse_extends(src: Seq<char>, pos: int, nodes: Seq<Node>, stack: Seq<usize>)
    requires
        parsing_wf(src, pos, nodes, stack),
        parse_from(src, pos, nodes, stack) is Ok,
    ensures
        extends(nodes, parse_from(src, pos, nodes, stack)->Ok_0),
    decreases src.len() - pos,
{
    if pos < src.len() {
        lemma_step_state(src, pos, nodes, stack);
        let next = step(src, pos, nodes, stack);
        lemma_parse_extends(src, next.0, next.1, next.2);
        let fin = parse_from(src, pos, nodes, stack)->Ok_0;
        assert forall|k: int| 0 <= k < nodes.len() implies (#[trigger] fin[k]).kind == nodes[k].kind
            && fin[k].span == nodes[k].span && (nodes[k].link != k ==> fin[k].link
            == nodes[k].link) by {
            assert(next.1[k].kind == nodes[k].kind);
            assert(link_ok(nodes, k, stack));
        }
    }
}

/// Building the tree yields a well-formed tree or an error that points
/// into the text.
pub proof fn lemma_tree_wf(src: Seq<char>)
    requires
        src.len() <= usize::MAX,
    ensures
        match tree_model(src) {
            Ok(tree) => nodes_wf(src, tree),
            Err(e) => e.offset <= src.len() && e.line == line_at(src, e.offset as int) && e.column
                == column_at(src, e.offset as int),
        },
{
    lemma_parse_from_wf(src, 0, Seq::empty(), Seq::empty());
}

/// Parsing yields a well-formed tree that holds no malformed form, or an
/// error that points into the text.
pub proof fn lemma_parse_wf(src: Seq<char>)
    requires
        src.len() <= usize::MAX,
    ensures
        match parse_model(src) {
            Ok(tree) => nodes_wf(src, tree) && tree_model(src) == Ok::<Seq<Node>, ParseError>(tree)
                && first_malformed(tree, 0) is None,
            Err(e) => e.offset <= src.len() && e.line == line_at(src, e.offset as int) && e.column
                == column_at(src, e.offset as int),
        },
{
    lemma_tree_wf(src);
    if let Ok(nodes) = tree_model(src) {
        lemma_first_malformed(nodes, 0);
        if let Some((at, kind)) = first_malformed(nodes, 0) {
            assert(nodes[at].span.within(src));
        }
    }
}

/// The place after one more node.
pub proof fn lemma_place_push(nodes: Seq<Node>, node: Node)
    ensures
        place_of(nodes.push(node)) == node.kind.place_after(place_of(nodes)),
{
    assert(nodes.push(node).drop_last() =~= nodes);
}

impl AlefComponentModule {
    /// The tree is a well-formed tree over the source.
    pub open spec fn wf(&self) -> bool {
        nodes_wf(self.source@, self.nodes@)
    }

    /// Parses `source`, the text of the module known as `specifier`.
    ///
    /// The result is the tree that `parse_model` describes, or its error:
    /// the first piece of text that cannot be read, or the innermost
    /// bracket that is still open where the text ends, or, in a text whose
    /// pieces and brackets are in order, the first form that the syntax
    /// does not allow. Offsets, lines and columns count characters;
    /// `utf8_offset` turns an offset into the offset in bytes of `source`,
    /// at whose end it is the length of `source` in bytes.
    pub fn parse(specifier: &str, source: &str) -> (r: Result<AlefComponentModule, ParseError>)
        ensures
            match r {
                Ok(m) => parse_model(source@) == Ok::<Seq<Node>, ParseError>(m.nodes@)
                    && m.source@ == source@ && m.specifier@ == specifier@ && m.wf()
                    && utf8_offset(m.source@, m.source@.len() as int)
                    == source.spec_bytes().len(),
                Err(e) => parse_model(source@) == Err::<Seq<Node>, ParseError>(e) && e.offset
                    <= source@.len() && e.line == line_at(source@, e.offset as int) && e.column
                    == column_at(source@, e.offset as int),
            },
    {
        let src = chars_of(source);
        proof {
            law_byte_offsets_fit_strings(source);
        }
        let mut nodes: Vec<Node> = Vec::new();
        let mut stack: Vec<usize> = Vec::new();
        let mut pos: usize = 0;
        let mut line: usize = 0;
        let mut column: usize = 0;
        let mut place = Place::Start;
        let total = src.len();
        proof {
            lemma_parse_wf(src@);
            lemma_tree_wf(src@);
        }
        while pos < total
            invariant
                src@ == source@,
                total == src.len(),
                pos <= src.len(),
                line == line_at(src@, pos as int),
                column == column_at(src@, pos as int),
                place == place_of(nodes@),
                tree_model(src@) == parse_from(src@, pos as int, nodes@, stack@),
                forall|j: int| 0 <= j < stack.len() ==> (#[trigger] stack[j]) < nodes.len(),
            decreases src.len() - pos,
        {
            let top = if stack.len() == 0 {
                None
            } else {
                match nodes[stack[stack.len() - 1]].kind {
                    NodeKind::Open(d) => Some(d),
                    _ => None,
                }
            };
            assert(top == top_of(nodes@, stack@));
            proof {
                lemma_lexeme_context(src@, pos as int, top, place);
            }
            match next_lexeme(&src, pos, top, place) {
                Err(kind) => {
                    return Err(ParseError { kind, offset: pos, line, column });
                },
                Ok((kind, end)) => {
                    let span = Span { start: pos, end, line, column };
                    assert(span == span_at(src@, pos as int, end as int));
                    let ghost before = nodes@;
                    let ghost open = stack@;
                    let n = nodes.len();
                    match kind {
                        NodeKind::Open(_) => {
                            stack.push(n);
                            nodes.push(Node { kind, span, link: n });
                            proof {
                                lemma_place_push(before, Node { kind, span, link: n });
                            }
                        },
                        NodeKind::Close(_) => {
                            assert(stack.len() > 0);
                            let o = stack[stack.len() - 1];
                            stack.pop();
                            let opening = nodes[o];
                            nodes.set(o, Node { kind: opening.kind, span: opening.span, link: n });
                            nodes.push(Node { kind, span, link: o });
                            assert(nodes@ == close_group(
                                before,
                                open.last() as int,
                                Node { kind, span, link: n },
                            ));
                            assert(stack@ == open.drop_last());
                            assert(nodes@.last().kind == kind);
                        },
                        _ => {
                            nodes.push(Node { kind, span, link: n });
                            proof {
                                lemma_place_push(before, Node { kind, span, link: n });
                            }
                        },
                    }
                    place = kind.next_place(place);
                    let p = advance(&src, pos, end, line, column);
                    line = p.0;
                    column = p.1;
                    pos = end;
                },
            }
        }
        if stack.len() > 0 {
            let at = nodes[stack[stack.len() - 1]];
            let kind = if at.kind == NodeKind::Open(Delim::Template) {
                ParseErrorKind::UnterminatedTemplate
            } else if at.kind == NodeKind::Open(Delim::Tag) || at.kind == NodeKind::Open(
                Delim::Children,
            ) {
                ParseErrorKind::UnterminatedElement
            } else {
                ParseErrorKind::UnclosedDelimiter
            };
            return Err(
                ParseError { kind, offset: at.span.start, line: at.span.line, column: at.span.column },
            );
        }
        match find_malformed(&nodes) {
            Some((at, kind)) => {
                let span = nodes[at].span;
                return Err(
                    ParseError { kind, offset: span.start, line: span.line, column: span.column },
                );
            },
            None => {},
        }
        Ok(AlefComponentModule { specifier: chars_of(specifier), source: src, nodes })
    }
}

} // verus!
