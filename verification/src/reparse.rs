//! The emitted code parses again, and its tree is the rewritten tree: the
//! kinds of its nodes are those of the source, with one string literal in
//! place of each rewritten literal and one word in place of each lifted
//! style template.
//!
//! The proof reads the source and the code side by side. Outside the
//! rewrites the two texts agree, so the same pieces are read. At a
//! rewritten literal both read one string literal. At a lifted template
//! the code reads one word while the source reads the tag and the whole
//! template.

use crate::ast_walker::{css_id, literal_text, quoted, RewriteView};
use crate::emit::{rewrites_ok, spliced};
use crate::classify::{lemma_skip_trivia, skip_trivia};
use crate::lexer::{
    is_name_start, is_word_char, lemma_chunk_stop, lexeme_at, Delim, NodeKind, Place,
};
use crate::locality::{agree, char_at, lemma_lexeme_local, same_peek, same_stop};
use crate::module::{
    extends, kind_fits, lemma_offsets, lemma_parse_extends, lemma_step_state, link_ok, nodes_wf,
    parse_from, parsing_wf, place_of, step, top_of, Node,
};
use crate::options::EmitOptions;
use crate::relex::{lemma_css_id_is_word, lemma_lex_identifier, lemma_lex_literal};
use crate::resolve::{normalize, script_extension};
use crate::walk_laws::rewrite_fits;
use vstd::prelude::*;

verus! {

/// The kinds of the nodes, in order.
pub open spec fn kinds(nodes: Seq<Node>) -> Seq<NodeKind> {
    Seq::new(nodes.len(), |k: int| nodes[k].kind)
}

/// The kind of the bracket that is open at depth `j`.
pub open spec fn delim_at(nodes: Seq<Node>, stack: Seq<usize>, j: int) -> NodeKind {
    nodes[stack[j] as int].kind
}

/// The first `count` open brackets of the two parses have the same kinds.
pub open spec fn same_delims(
    na: Seq<Node>,
    sa: Seq<usize>,
    nb: Seq<Node>,
    sb: Seq<usize>,
    count: int,
) -> bool {
    forall|j: int| 0 <= j < count ==> #[trigger] delim_at(na, sa, j) == delim_at(nb, sb, j)
}

/// The kinds of the rewritten tree from node `i` on, `r` rewrites having
/// been passed: one string literal for a rewritten literal, one word for
/// a lifted style template, and the kind of every other node.
pub open spec fn rewritten_kinds(
    nodes: Seq<Node>,
    rewrites: Seq<RewriteView>,
    i: int,
    r: int,
) -> Seq<NodeKind>
    decreases nodes.len() - i,
{
    if i < 0 || i >= nodes.len() {
        Seq::empty()
    } else if 0 <= r < rewrites.len() && rewrites[r].first == i {
        let last = rewrites[r].last as int;
        seq![
            if nodes[i].kind == NodeKind::Str {
                NodeKind::Str
            } else {
                NodeKind::Word
            },
        ] + rewritten_kinds(
            nodes,
            rewrites,
            if i <= last < nodes.len() {
                last + 1
            } else {
                i + 1
            },
            r + 1,
        )
    } else {
        seq![nodes[i].kind] + rewritten_kinds(nodes, rewrites, i + 1, r)
    }
}

/// Offset in the source at which the text of rewrite `r` is put in; the
/// end of the source where there is no such rewrite.
pub open spec fn stop_of(src: Seq<char>, nodes: Seq<Node>, rewrites: Seq<RewriteView>, r: int) -> int {
    if 0 <= r < rewrites.len() {
        nodes[rewrites[r].first as int].span.start as int
    } else {
        src.len() as int
    }
}

/// The code from the text of rewrite `r` on; nothing where there is no
/// such rewrite.
pub open spec fn tail_of(
    src: Seq<char>,
    nodes: Seq<Node>,
    rewrites: Seq<RewriteView>,
    r: int,
) -> Seq<char> {
    if 0 <= r < rewrites.len() {
        rewrites[r].text + spliced(
            src,
            nodes,
            rewrites,
            r + 1,
            nodes[rewrites[r].last as int].span.end as int,
        )
    } else {
        Seq::empty()
    }
}

/// The rest of the code is the source up to the next rewrite, followed by
/// the code from that rewrite on.
pub proof fn lemma_spliced_unfold(
    src: Seq<char>,
    nodes: Seq<Node>,
    rewrites: Seq<RewriteView>,
    r: int,
    from: int,
)
    requires
        0 <= r,
    ensures
        spliced(src, nodes, rewrites, r, from) == src.subrange(
            from,
            stop_of(src, nodes, rewrites, r),
        ) + tail_of(src, nodes, rewrites, r),
{
    let s = stop_of(src, nodes, rewrites, r);
    let t = tail_of(src, nodes, rewrites, r);
    assert(spliced(src, nodes, rewrites, r, from) =~= src.subrange(from, s) + t);
}

/// Where the rest of the code is a stretch of the source followed by a
/// tail, a piece of the source that lies in the stretch stands in the
/// code too, ends alike there, and leaves the rest of the stretch and the
/// tail behind.
pub proof fn lemma_rest_plain(
    src: Seq<char>,
    pa: int,
    ea: int,
    s: int,
    tail: Seq<char>,
    code: Seq<char>,
    pb: int,
)
    requires
        0 <= pa < ea <= s <= src.len(),
        0 <= pb <= code.len(),
        code.subrange(pb, code.len() as int) == src.subrange(pa, s) + tail,
        tail.len() == 0 ==> s == src.len(),
        tail.len() > 0 ==> s < src.len() && (src[s] == tail[0] || (is_name_start(src[s])
            && is_name_start(tail[0]))),
    ensures
        agree(src, pa, code, pb, ea - pa),
        same_peek(src, ea, code, pb + (ea - pa)),
        pb + (ea - pa) <= code.len(),
        code.subrange(pb + (ea - pa), code.len() as int) == src.subrange(ea, s) + tail,
        ea < s ==> pb + (ea - pa) < code.len() && code[pb + (ea - pa)] == src[ea],
        ea + 1 < s ==> pb + (ea - pa) + 1 < code.len() && code[pb + (ea - pa) + 1] == src[ea + 1],
        ea + 1 == s && tail.len() == 0 ==> pb + (ea - pa) + 1 == code.len(),
{
    let rest = code.subrange(pb, code.len() as int);
    let len = ea - pa;
    assert(rest.len() == (s - pa) + tail.len());
    assert forall|k: int| 0 <= k < s - pa implies #[trigger] char_at(src, pa, k) == char_at(
        code,
        pb,
        k,
    ) by {
        assert(rest[k] == code[pb + k]);
        assert(rest[k] == src.subrange(pa, s)[k]);
    }
    if ea == s && tail.len() > 0 {
        assert(rest[len] == code[pb + len]);
        assert(rest[len] == tail[0]);
    }
    if ea < s {
        assert(char_at(src, pa, len) == char_at(code, pb, len));
    }
    if ea + 1 < s {
        assert(char_at(src, pa, len + 1) == char_at(code, pb, len + 1));
    }
    assert(code.subrange(pb + len, code.len() as int) =~= src.subrange(ea, s) + tail) by {
        let x = code.subrange(pb + len, code.len() as int);
        let y = src.subrange(ea, s) + tail;
        assert(x.len() == y.len());
        assert forall|k: int| 0 <= k < x.len() implies x[k] == y[k] by {
            assert(x[k] == rest[len + k]);
            if k < s - ea {
                assert(rest[len + k] == src.subrange(pa, s)[len + k]);
            } else {
                assert(rest[len + k] == tail[len + k - (s - pa)]);
            }
        }
    }
}

/// What both parses rest on: the tree of the source, the rewrites that fit
/// it, and the states of the two parses.
pub open spec fn common(
    src: Seq<char>,
    fin: Seq<Node>,
    opts: EmitOptions,
    rewrites: Seq<RewriteView>,
    code: Seq<char>,
    pa: int,
    na: Seq<Node>,
    sa: Seq<usize>,
    r: int,
    pb: int,
    nb: Seq<Node>,
    sb: Seq<usize>,
) -> bool {
    &&& nodes_wf(src, fin)
    &&& parsing_wf(src, pa, na, sa)
    &&& parse_from(src, pa, na, sa) == Ok::<Seq<Node>, crate::error::ParseError>(fin)
    &&& rewrites_ok(fin.len() as int, rewrites)
    &&& forall|k: int|
        0 <= k < rewrites.len() ==> rewrite_fits(src, fin, opts, #[trigger] rewrites[k])
    &&& 0 <= r <= rewrites.len()
    &&& parsing_wf(code, pb, nb, sb)
}

/// The two parses stand at the same place outside the rewrites: the next
/// rewrite lies ahead, the same brackets are open, and the rest of the
/// code is the rest of the source with the remaining rewrites in place.
pub open spec fn outside(
    src: Seq<char>,
    fin: Seq<Node>,
    rewrites: Seq<RewriteView>,
    code: Seq<char>,
    pa: int,
    na: Seq<Node>,
    sa: Seq<usize>,
    r: int,
    pb: int,
    nb: Seq<Node>,
    sb: Seq<usize>,
) -> bool {
    &&& r < rewrites.len() ==> na.len() <= rewrites[r].first
    &&& sa.len() == sb.len()
    &&& same_delims(na, sa, nb, sb, sb.len() as int)
    &&& place_of(na) == place_of(nb)
    &&& code.subrange(pb, code.len() as int) == spliced(src, fin, rewrites, r, pa)
}

/// The parse of the source stands inside the style template that rewrite
/// `r - 1` lifts, and the parse of the code stands after its identifier:
/// the brackets that were open before the template are the same, and the
/// template is the next above them.
pub open spec fn inside(
    src: Seq<char>,
    fin: Seq<Node>,
    rewrites: Seq<RewriteView>,
    code: Seq<char>,
    na: Seq<Node>,
    sa: Seq<usize>,
    r: int,
    pb: int,
    nb: Seq<Node>,
    sb: Seq<usize>,
) -> bool {
    &&& r >= 1
    &&& fin[rewrites[r - 1].first as int].kind == NodeKind::CssTag
    &&& rewrites[r - 1].first < na.len() <= rewrites[r - 1].last
    &&& sb.len() <= sa.len()
    &&& same_delims(na, sa, nb, sb, sb.len() as int)
    &&& place_of(nb) == Place::After
    &&& na.len() <= skip_trivia(fin, rewrites[r - 1].first + 1) ==> sa.len() == sb.len()
    &&& na.len() > skip_trivia(fin, rewrites[r - 1].first + 1) ==> sa.len() > sb.len()
        && sa[sb.len() as int] == skip_trivia(fin, rewrites[r - 1].first + 1)
    &&& code.subrange(pb, code.len() as int) == spliced(
        src,
        fin,
        rewrites,
        r,
        fin[rewrites[r - 1].last as int].span.end as int,
    )
}

/// The kinds after a step are the kinds before it and the kind of the
/// piece that was read.
proof fn lemma_step_kinds(src: Seq<char>, pos: int, nodes: Seq<Node>, stack: Seq<usize>)
    requires
        parsing_wf(src, pos, nodes, stack),
        pos < src.len(),
        lexeme_at(src, pos, top_of(nodes, stack), place_of(nodes)) is Ok,
    ensures
        kinds(step(src, pos, nodes, stack).1) == kinds(nodes).push(
            lexeme_at(src, pos, top_of(nodes, stack), place_of(nodes))->Ok_0.0,
        ),
{
    lemma_step_state(src, pos, nodes, stack);
    let next = step(src, pos, nodes, stack).1;
    let kind = lexeme_at(src, pos, top_of(nodes, stack), place_of(nodes))->Ok_0.0;
    assert(extends(nodes, next));
    assert(kinds(next) =~= kinds(nodes).push(kind));
}

/// The head of a rewrite: where its text is put in, the source holds a
/// quote or the letter `c`, and the text starts with the same quote or
/// with a word character.
proof fn lemma_rewrite_head(src: Seq<char>, fin: Seq<Node>, opts: EmitOptions, rw: RewriteView)
    requires
        nodes_wf(src, fin),
        rw.first <= rw.last < fin.len(),
        rewrite_fits(src, fin, opts, rw),
    ensures
        ({
            let s = fin[rw.first as int].span.start as int;
            &&& 0 <= s < src.len()
            &&& rw.text.len() > 0
            &&& src[s] == rw.text[0] || (is_name_start(src[s]) && is_name_start(rw.text[0]))
            &&& src[s] != '`'
            &&& src[s] != '$'
            &&& src[s] != '{'
        }),
{
    let first = fin[rw.first as int];
    assert(kind_fits(src, first));
    assert(first.span.within(src));
    assert(first.span.start < first.span.end);
    if first.kind == NodeKind::CssTag {
        let n = choose|n: nat| rw.text == #[trigger] css_id(n);
        lemma_css_id_is_word(n);
        assert(first.span.text(src)[0] == src[first.span.start as int]);
        assert(crate::lexer::kw_css()[0] == 'c');
    } else {
        let q = src[first.span.start as int];
        let t = quoted(q, normalize(literal_text(src, first)));
        assert(t[0] == q);
    }
}

/// The kinds of the open brackets up to depth `count` stay as they are
/// when a piece is read that leaves those brackets open.
proof fn lemma_delims_kept(
    src: Seq<char>,
    pos: int,
    nodes: Seq<Node>,
    stack: Seq<usize>,
    count: int,
)
    requires
        parsing_wf(src, pos, nodes, stack),
        pos < src.len(),
        lexeme_at(src, pos, top_of(nodes, stack), place_of(nodes)) is Ok,
        0 <= count <= stack.len(),
        lexeme_at(src, pos, top_of(nodes, stack), place_of(nodes))->Ok_0.0 is Close ==> count < stack.len(),
    ensures
        count <= step(src, pos, nodes, stack).2.len(),
        forall|j: int|
            0 <= j < count ==> #[trigger] delim_at(
                step(src, pos, nodes, stack).1,
                step(src, pos, nodes, stack).2,
                j,
            ) == delim_at(nodes, stack, j),
{
    lemma_step_state(src, pos, nodes, stack);
    let next = step(src, pos, nodes, stack);
    assert forall|j: int| 0 <= j < count implies #[trigger] delim_at(next.1, next.2, j)
        == delim_at(nodes, stack, j) by {
        assert(next.2[j] == stack[j]);
        assert(stack[j] < nodes.len());
        assert(next.1[stack[j] as int].kind == nodes[stack[j] as int].kind);
    }
}

/// Two parses with the same open brackets that read a piece of the same
/// kind have the same open brackets afterwards.
proof fn lemma_step_delims(
    src: Seq<char>,
    pa: int,
    na: Seq<Node>,
    sa: Seq<usize>,
    code: Seq<char>,
    pb: int,
    nb: Seq<Node>,
    sb: Seq<usize>,
    count: int,
)
    requires
        parsing_wf(src, pa, na, sa),
        parsing_wf(code, pb, nb, sb),
        pa < src.len(),
        pb < code.len(),
        lexeme_at(src, pa, top_of(na, sa), place_of(na)) is Ok,
        lexeme_at(code, pb, top_of(nb, sb), place_of(nb)) is Ok,
        lexeme_at(src, pa, top_of(na, sa), place_of(na))->Ok_0.0 == lexeme_at(code, pb, top_of(nb, sb), place_of(nb))->Ok_0.0,
        count == sb.len(),
        sa.len() == sb.len(),
        same_delims(na, sa, nb, sb, count),
    ensures
        step(src, pa, na, sa).2.len() == step(code, pb, nb, sb).2.len(),
        same_delims(
            step(src, pa, na, sa).1,
            step(src, pa, na, sa).2,
            step(code, pb, nb, sb).1,
            step(code, pb, nb, sb).2,
            step(code, pb, nb, sb).2.len() as int,
        ),
{
    let kind = lexeme_at(src, pa, top_of(na, sa), place_of(na))->Ok_0.0;
    lemma_step_state(src, pa, na, sa);
    lemma_step_state(code, pb, nb, sb);
    let a2 = step(src, pa, na, sa);
    let b2 = step(code, pb, nb, sb);
    let keep = if kind is Close {
        count - 1
    } else {
        count
    };
    lemma_delims_kept(src, pa, na, sa, keep);
    lemma_delims_kept(code, pb, nb, sb, keep);
    assert forall|j: int| 0 <= j < b2.2.len() implies #[trigger] delim_at(a2.1, a2.2, j)
        == delim_at(b2.1, b2.2, j) by {
        if j < keep {
            assert(delim_at(na, sa, j) == delim_at(nb, sb, j));
        } else {
            assert(kind is Open);
            assert(a2.2[j] == na.len());
            assert(b2.2[j] == nb.len());
        }
    }
}

/// A step that both parses take alike, outside the rewrites.
#[verifier::rlimit(50)]
proof fn lemma_plain(
    src: Seq<char>,
    fin: Seq<Node>,
    opts: EmitOptions,
    rewrites: Seq<RewriteView>,
    code: Seq<char>,
    pa: int,
    na: Seq<Node>,
    sa: Seq<usize>,
    r: int,
    pb: int,
    nb: Seq<Node>,
    sb: Seq<usize>,
)
    requires
        common(src, fin, opts, rewrites, code, pa, na, sa, r, pb, nb, sb),
        outside(src, fin, rewrites, code, pa, na, sa, r, pb, nb, sb),
        pa < src.len(),
        !(r < rewrites.len() && rewrites[r].first == na.len()),
    ensures
        ({
            let a2 = step(src, pa, na, sa);
            let b2 = step(code, pb, nb, sb);
            &&& pb < code.len()
            &&& lexeme_at(code, pb, top_of(nb, sb), place_of(nb)) is Ok
            &&& lexeme_at(code, pb, top_of(nb, sb), place_of(nb))->Ok_0.0 == fin[na.len() as int].kind
            &&& na.len() < fin.len()
            &&& pa < a2.0
            &&& common(src, fin, opts, rewrites, code, a2.0, a2.1, a2.2, r, b2.0, b2.1, b2.2)
            &&& outside(src, fin, rewrites, code, a2.0, a2.1, a2.2, r, b2.0, b2.1, b2.2)
        }),
{
    let n = na.len() as int;
    let top = top_of(na, sa);
    assert(lexeme_at(src, pa, top, place_of(na)) is Ok);
    let kind = lexeme_at(src, pa, top, place_of(na))->Ok_0.0;
    let ea = lexeme_at(src, pa, top, place_of(na))->Ok_0.1;
    lemma_step_state(src, pa, na, sa);
    let a2 = step(src, pa, na, sa);
    lemma_parse_extends(src, a2.0, a2.1, a2.2);
    assert(fin[n].kind == kind);
    assert(fin[n].span.start == pa && fin[n].span.end == ea);
    let s = stop_of(src, fin, rewrites, r);
    let tail = tail_of(src, fin, rewrites, r);
    lemma_spliced_unfold(src, fin, rewrites, r, pa);
    lemma_spliced_unfold(src, fin, rewrites, r, ea);
    if r < rewrites.len() {
        let rw = rewrites[r];
        lemma_rewrite_head(src, fin, opts, rw);
        lemma_offsets(src, fin, n, rw.first as int);
        assert(tail[0] == rw.text[0]);
    }
    lemma_rest_plain(src, pa, ea, s, tail, code, pb);
    if kind == NodeKind::Chunk {
        crate::lexer::lemma_lexeme_context(src, pa, top, place_of(na));
        lemma_chunk_stop(src, pa);
        assert(same_stop(src, ea, code, pb + (ea - pa)));
    }
    assert(top_of(nb, sb) == top) by {
        if sb.len() > 0 {
            assert(delim_at(na, sa, sb.len() - 1) == delim_at(nb, sb, sb.len() - 1));
        }
    }
    lemma_lexeme_local(src, pa, code, pb, top, place_of(na), ea - pa);
    lemma_step_state(code, pb, nb, sb);
    lemma_step_delims(src, pa, na, sa, code, pb, nb, sb, sb.len() as int);
}

/// The step at a rewritten literal: the source reads the literal as it
/// was written, the code reads the literal in normal form.
#[verifier::rlimit(50)]
proof fn lemma_literal_step(
    src: Seq<char>,
    fin: Seq<Node>,
    opts: EmitOptions,
    rewrites: Seq<RewriteView>,
    code: Seq<char>,
    pa: int,
    na: Seq<Node>,
    sa: Seq<usize>,
    r: int,
    pb: int,
    nb: Seq<Node>,
    sb: Seq<usize>,
)
    requires
        common(src, fin, opts, rewrites, code, pa, na, sa, r, pb, nb, sb),
        outside(src, fin, rewrites, code, pa, na, sa, r, pb, nb, sb),
        pa < src.len(),
        r < rewrites.len(),
        rewrites[r].first == na.len(),
        fin[na.len() as int].kind == NodeKind::Str,
    ensures
        ({
            let a2 = step(src, pa, na, sa);
            let b2 = step(code, pb, nb, sb);
            &&& pb < code.len()
            &&& lexeme_at(code, pb, top_of(nb, sb), place_of(nb)) is Ok
            &&& lexeme_at(code, pb, top_of(nb, sb), place_of(nb))->Ok_0.0 == NodeKind::Str
            &&& rewrites[r].last == na.len()
            &&& pa < a2.0
            &&& common(src, fin, opts, rewrites, code, a2.0, a2.1, a2.2, r + 1, b2.0, b2.1, b2.2)
            &&& outside(src, fin, rewrites, code, a2.0, a2.1, a2.2, r + 1, b2.0, b2.1, b2.2)
        }),
{
    let n = na.len() as int;
    let rw = rewrites[r];
    let top = top_of(na, sa);
    assert(lexeme_at(src, pa, top, place_of(na)) is Ok);
    let ea = lexeme_at(src, pa, top, place_of(na))->Ok_0.1;
    lemma_step_state(src, pa, na, sa);
    let a2 = step(src, pa, na, sa);
    lemma_parse_extends(src, a2.0, a2.1, a2.2);
    assert(fin[n].span.start == pa && fin[n].span.end == ea);
    assert(rewrite_fits(src, fin, opts, rw));
    assert(kind_fits(src, fin[n]));
    let raw = literal_text(src, fin[n]);
    let ext = script_extension(raw);
    let m = raw.len() - ext;
    let text = rw.text;
    assert(raw.subrange(0, m) =~= src.subrange(pa + 1, pa + 1 + m));
    assert(text.len() == m + 5);
    lemma_spliced_unfold(src, fin, rewrites, r, pa);
    let after = spliced(src, fin, rewrites, r + 1, ea);
    let rest = code.subrange(pb, code.len() as int);
    assert(src.subrange(pa, pa) =~= Seq::<char>::empty());
    assert(rest =~= text + after);
    assert(code.subrange(pb, pb + m + 5) =~= text) by {
        assert forall|k: int| 0 <= k < m + 5 implies code.subrange(pb, pb + m + 5)[k] == text[k] by {
            assert(rest[k] == code[pb + k]);
        }
    }
    assert(top_of(nb, sb) == top) by {
        if sb.len() > 0 {
            assert(delim_at(na, sa, sb.len() - 1) == delim_at(nb, sb, sb.len() - 1));
        }
    }
    lemma_lex_literal(src, pa, ea, code, pb, top, place_of(na), m);
    lemma_step_state(code, pb, nb, sb);
    lemma_step_delims(src, pa, na, sa, code, pb, nb, sb, sb.len() as int);
    assert(code.subrange(pb + m + 5, code.len() as int) =~= after) by {
        let x = code.subrange(pb + m + 5, code.len() as int);
        assert forall|k: int| 0 <= k < x.len() implies x[k] == after[k] by {
            assert(x[k] == rest[m + 5 + k]);
        }
    }
    if r + 1 < rewrites.len() {
        assert(rewrites[r].last < rewrites[r + 1].first);
    }
}

/// The step at a lifted style template: the source reads the tag, the
/// code reads the identifier.
#[verifier::rlimit(50)]
proof fn lemma_style_entry(
    src: Seq<char>,
    fin: Seq<Node>,
    opts: EmitOptions,
    rewrites: Seq<RewriteView>,
    code: Seq<char>,
    pa: int,
    na: Seq<Node>,
    sa: Seq<usize>,
    r: int,
    pb: int,
    nb: Seq<Node>,
    sb: Seq<usize>,
)
    requires
        common(src, fin, opts, rewrites, code, pa, na, sa, r, pb, nb, sb),
        outside(src, fin, rewrites, code, pa, na, sa, r, pb, nb, sb),
        pa < src.len(),
        r < rewrites.len(),
        rewrites[r].first == na.len(),
        fin[na.len() as int].kind != NodeKind::Str,
    ensures
        ({
            let a2 = step(src, pa, na, sa);
            let b2 = step(code, pb, nb, sb);
            &&& pb < code.len()
            &&& lexeme_at(code, pb, top_of(nb, sb), place_of(nb)) is Ok
            &&& lexeme_at(code, pb, top_of(nb, sb), place_of(nb))->Ok_0.0 == NodeKind::Word
            &&& rewrites[r].first < rewrites[r].last < fin.len()
            &&& pa < a2.0
            &&& common(src, fin, opts, rewrites, code, a2.0, a2.1, a2.2, r + 1, b2.0, b2.1, b2.2)
            &&& inside(src, fin, rewrites, code, a2.1, a2.2, r + 1, b2.0, b2.1, b2.2)
        }),
{
    let n = na.len() as int;
    let rw = rewrites[r];
    let last = rw.last as int;
    let top = top_of(na, sa);
    assert(lexeme_at(src, pa, top, place_of(na)) is Ok);
    let ea = lexeme_at(src, pa, top, place_of(na))->Ok_0.1;
    lemma_step_state(src, pa, na, sa);
    let a2 = step(src, pa, na, sa);
    lemma_parse_extends(src, a2.0, a2.1, a2.2);
    assert(fin[n].span.start == pa && fin[n].span.end == ea);
    assert(rewrite_fits(src, fin, opts, rw));
    assert(fin[n].kind == NodeKind::CssTag);
    crate::lexer::lemma_lexeme_context(src, pa, top, place_of(na));
    let id_number = choose|k: nat| rw.text == #[trigger] css_id(k);
    let id = css_id(id_number);
    lemma_css_id_is_word(id_number);
    let end = fin[last].span.end as int;
    assert(fin[last].span.within(src));
    lemma_spliced_unfold(src, fin, rewrites, r, pa);
    let after = spliced(src, fin, rewrites, r + 1, end);
    let rest = code.subrange(pb, code.len() as int);
    assert(src.subrange(pa, pa) =~= Seq::<char>::empty());
    assert(rest =~= id + after);
    let len = id.len() as int;
    assert(code.subrange(pb, pb + len) =~= id) by {
        assert forall|k: int| 0 <= k < len implies code.subrange(pb, pb + len)[k] == id[k] by {
            assert(rest[k] == code[pb + k]);
        }
    }
    assert(code.subrange(pb + len, code.len() as int) =~= after) by {
        let x = code.subrange(pb + len, code.len() as int);
        assert forall|k: int| 0 <= k < x.len() implies x[k] == after[k] by {
            assert(x[k] == rest[len + k]);
        }
    }
    assert(pb + len == code.len() || !is_word_char(code[pb + len])) by {
        if pb + len < code.len() {
            assert(code[pb + len] == rest[len]);
            assert(rest[len] == after[0]);
            lemma_spliced_unfold(src, fin, rewrites, r + 1, end);
            let s2 = stop_of(src, fin, rewrites, r + 1);
            let tail2 = tail_of(src, fin, rewrites, r + 1);
            if r + 1 < rewrites.len() {
                assert(rewrites[r].last < rewrites[r + 1].first);
                lemma_offsets(src, fin, last, rewrites[r + 1].first as int);
                lemma_rewrite_head(src, fin, opts, rewrites[r + 1]);
                assert(tail2[0] == rewrites[r + 1].text[0]);
            }
            if end < s2 {
                assert(after[0] == src.subrange(end, s2)[0]);
            } else {
                assert(after[0] == tail2[0]);
            }
        }
    }
    assert(top_of(nb, sb) == top) by {
        if sb.len() > 0 {
            assert(delim_at(na, sa, sb.len() - 1) == delim_at(nb, sb, sb.len() - 1));
        }
    }
    lemma_lex_identifier(code, pb, top, place_of(na), id_number);
    lemma_step_state(code, pb, nb, sb);
    lemma_delims_kept(src, pa, na, sa, sb.len() as int);
    lemma_delims_kept(code, pb, nb, sb, sb.len() as int);
    let b2 = step(code, pb, nb, sb);
    assert(same_delims(a2.1, a2.2, b2.1, b2.2, b2.2.len() as int)) by {
        assert forall|j: int| 0 <= j < b2.2.len() implies #[trigger] delim_at(a2.1, a2.2, j)
            == delim_at(b2.1, b2.2, j) by {
            assert(delim_at(na, sa, j) == delim_at(nb, sb, j));
        }
    }
}

/// A step of the source inside a lifted style template, while the code
/// waits after the identifier.
#[verifier::rlimit(50)]
proof fn lemma_inside_step(
    src: Seq<char>,
    fin: Seq<Node>,
    opts: EmitOptions,
    rewrites: Seq<RewriteView>,
    code: Seq<char>,
    pa: int,
    na: Seq<Node>,
    sa: Seq<usize>,
    r: int,
    pb: int,
    nb: Seq<Node>,
    sb: Seq<usize>,
)
    requires
        common(src, fin, opts, rewrites, code, pa, na, sa, r, pb, nb, sb),
        inside(src, fin, rewrites, code, na, sa, r, pb, nb, sb),
        pa < src.len(),
    ensures
        ({
            let a2 = step(src, pa, na, sa);
            &&& pa < a2.0
            &&& common(src, fin, opts, rewrites, code, a2.0, a2.1, a2.2, r, pb, nb, sb)
            &&& if na.len() == rewrites[r - 1].last {
                outside(src, fin, rewrites, code, a2.0, a2.1, a2.2, r, pb, nb, sb)
            } else {
                inside(src, fin, rewrites, code, a2.1, a2.2, r, pb, nb, sb)
            }
        }),
{
    let n = na.len() as int;
    let rw = rewrites[r - 1];
    let first = rw.first as int;
    let last = rw.last as int;
    let t = skip_trivia(fin, first + 1);
    lemma_skip_trivia(fin, first + 1);
    let top = top_of(na, sa);
    assert(lexeme_at(src, pa, top, place_of(na)) is Ok);
    let kind = lexeme_at(src, pa, top, place_of(na))->Ok_0.0;
    let ea = lexeme_at(src, pa, top, place_of(na))->Ok_0.1;
    lemma_step_state(src, pa, na, sa);
    let a2 = step(src, pa, na, sa);
    lemma_parse_extends(src, a2.0, a2.1, a2.2);
    assert(rewrite_fits(src, fin, opts, rw));
    assert(fin[n].kind == kind);
    assert(fin[n].span.end == ea);
    assert(link_ok(fin, t, Seq::empty()));
    assert(link_ok(fin, n, Seq::empty()));
    let count = sb.len() as int;
    if n < t {
        assert(fin[n].kind.is_trivia());
        lemma_delims_kept(src, pa, na, sa, count);
    } else if n == t {
        lemma_delims_kept(src, pa, na, sa, count);
        assert(a2.2[count] == n);
    } else {
        assert(sa[count] == t);
        if kind is Close {
            assert(a2.1[n].link == sa.last());
            assert(fin[n].link == sa.last());
            if sa.len() - 1 == count {
                assert(sa.last() == sa[count]);
            } else {
                assert(sa[count] < sa[sa.len() - 1]);
            }
        }
        if n == last {
            assert(kind == NodeKind::Close(Delim::Template));
            assert(sa.len() - 1 == count);
            lemma_delims_kept(src, pa, na, sa, count);
            if r < rewrites.len() {
                assert(rewrites[r - 1].last < rewrites[r].first);
            }
        } else {
            lemma_delims_kept(src, pa, na, sa, count);
            if kind is Close {
                assert(a2.2[count] == sa[count]);
            } else if kind is Open {
                assert(a2.2[count] == sa[count]);
            } else {
                assert(a2.2[count] == sa[count]);
            }
        }
    }
    assert(same_delims(a2.1, a2.2, nb, sb, count)) by {
        assert forall|j: int| 0 <= j < count implies #[trigger] delim_at(a2.1, a2.2, j)
            == delim_at(nb, sb, j) by {
            assert(delim_at(na, sa, j) == delim_at(nb, sb, j));
        }
    }
}

/// From states of the two parses that stand at the same place, the code
/// parses to the end, and the kinds of the nodes it yields from here on
/// are the kinds of the rewritten tree.
#[verifier::rlimit(50)]
proof fn lemma_sim(
    src: Seq<char>,
    fin: Seq<Node>,
    opts: EmitOptions,
    rewrites: Seq<RewriteView>,
    code: Seq<char>,
    pa: int,
    na: Seq<Node>,
    sa: Seq<usize>,
    r: int,
    pb: int,
    nb: Seq<Node>,
    sb: Seq<usize>,
    within: bool,
)
    requires
        common(src, fin, opts, rewrites, code, pa, na, sa, r, pb, nb, sb),
        if within {
            inside(src, fin, rewrites, code, na, sa, r, pb, nb, sb)
        } else {
            outside(src, fin, rewrites, code, pa, na, sa, r, pb, nb, sb)
        },
    ensures
        parse_from(code, pb, nb, sb) is Ok,
        kinds(parse_from(code, pb, nb, sb)->Ok_0) == kinds(nb) + rewritten_kinds(
            fin,
            rewrites,
            if within {
                rewrites[r - 1].last + 1
            } else {
                na.len() as int
            },
            r,
        ),
    decreases src.len() - pa,
{
    let n = na.len() as int;
    if within {
        assert(pa < src.len());
        lemma_inside_step(src, fin, opts, rewrites, code, pa, na, sa, r, pb, nb, sb);
        let a2 = step(src, pa, na, sa);
        lemma_step_state(src, pa, na, sa);
        lemma_sim(
            src,
            fin,
            opts,
            rewrites,
            code,
            a2.0,
            a2.1,
            a2.2,
            r,
            pb,
            nb,
            sb,
            n != rewrites[r - 1].last,
        );
    } else if pa >= src.len() {
        assert(fin == na);
        if r < rewrites.len() {
            assert(rewrites[r].first < fin.len());
        }
        assert(code.subrange(pb, code.len() as int).len() == 0);
        assert(sb.len() == 0);
        assert(kinds(nb) + rewritten_kinds(fin, rewrites, n, r) =~= kinds(nb));
    } else {
        lemma_step_state(src, pa, na, sa);
        let a2 = step(src, pa, na, sa);
        let b2 = step(code, pb, nb, sb);
        if r < rewrites.len() && rewrites[r].first == n {
            if fin[n].kind == NodeKind::Str {
                lemma_literal_step(src, fin, opts, rewrites, code, pa, na, sa, r, pb, nb, sb);
                lemma_step_state(code, pb, nb, sb);
                lemma_step_kinds(code, pb, nb, sb);
                lemma_sim(
                    src,
                    fin,
                    opts,
                    rewrites,
                    code,
                    a2.0,
                    a2.1,
                    a2.2,
                    r + 1,
                    b2.0,
                    b2.1,
                    b2.2,
                    false,
                );
                let rest = rewritten_kinds(fin, rewrites, n + 1, r + 1);
                assert(rewritten_kinds(fin, rewrites, n, r) == seq![NodeKind::Str] + rest);
                assert(kinds(nb).push(NodeKind::Str) + rest =~= kinds(nb) + (seq![NodeKind::Str]
                    + rest));
            } else {
                lemma_style_entry(src, fin, opts, rewrites, code, pa, na, sa, r, pb, nb, sb);
                lemma_step_state(code, pb, nb, sb);
                lemma_step_kinds(code, pb, nb, sb);
                lemma_sim(
                    src,
                    fin,
                    opts,
                    rewrites,
                    code,
                    a2.0,
                    a2.1,
                    a2.2,
                    r + 1,
                    b2.0,
                    b2.1,
                    b2.2,
                    true,
                );
                let rest = rewritten_kinds(fin, rewrites, rewrites[r].last + 1, r + 1);
                assert(rewritten_kinds(fin, rewrites, n, r) == seq![NodeKind::Word] + rest);
                assert(kinds(nb).push(NodeKind::Word) + rest =~= kinds(nb) + (seq![NodeKind::Word]
                    + rest));
            }
        } else {
            lemma_plain(src, fin, opts, rewrites, code, pa, na, sa, r, pb, nb, sb);
            lemma_step_state(code, pb, nb, sb);
            lemma_step_kinds(code, pb, nb, sb);
            lemma_sim(
                src,
                fin,
                opts,
                rewrites,
                code,
                a2.0,
                a2.1,
                a2.2,
                r,
                b2.0,
                b2.1,
                b2.2,
                false,
            );
            let rest = rewritten_kinds(fin, rewrites, n + 1, r);
            assert(rewritten_kinds(fin, rewrites, n, r) == seq![fin[n].kind] + rest);
            assert(kinds(nb).push(fin[n].kind) + rest =~= kinds(nb) + (seq![fin[n].kind] + rest));
        }
    }
}

/// The code that is the source with the rewrites of a walk in place
/// parses, and the kinds of its nodes are those of the rewritten tree:
/// the emitted program has the structure of the tree it was emitted from.
pub proof fn lemma_code_parses(
    src: Seq<char>,
    fin: Seq<Node>,
    opts: EmitOptions,
    rewrites: Seq<RewriteView>,
    code: Seq<char>,
)
    requires
        src.len() <= usize::MAX,
        code.len() <= usize::MAX,
        parse_from(src, 0, Seq::empty(), Seq::empty()) == Ok::<Seq<Node>, crate::error::ParseError>(
            fin,
        ),
        rewrites_ok(fin.len() as int, rewrites),
        forall|k: int|
            0 <= k < rewrites.len() ==> rewrite_fits(src, fin, opts, #[trigger] rewrites[k]),
        code == spliced(src, fin, rewrites, 0, 0),
    ensures
        parse_from(code, 0, Seq::empty(), Seq::empty()) is Ok,
        kinds(parse_from(code, 0, Seq::empty(), Seq::empty())->Ok_0) == rewritten_kinds(
            fin,
            rewrites,
            0,
            0,
        ),
{
    let none = Seq::<Node>::empty();
    let open = Seq::<usize>::empty();
    crate::module::lemma_parse_from_wf(src, 0, none, open);
    assert(code.subrange(0, code.len() as int) =~= code);
    lemma_sim(src, fin, opts, rewrites, code, 0, none, open, 0, 0, none, open, false);
    assert(kinds(none) + rewritten_kinds(fin, rewrites, 0, 0) =~= rewritten_kinds(
        fin,
        rewrites,
        0,
        0,
    ));
}

} // verus!
