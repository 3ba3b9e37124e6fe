//! The emitter: the tree, with the rewrites that the walk decided, written
//! out as text again, together with the table that ties the emitted text
//! to the source.
//!
//! A node that is not rewritten is emitted as the very text it covers, so
//! a tree without rewrites gives back its source, and the code of a tree
//! with rewrites is the source with the rewrites in place.

use crate::ast_walker::{rewrite_views, Rewrite, RewriteView};
use crate::map_laws::{anchored, anchors, lemma_mappings_anchored, rewrites_visible};
use crate::module::{adjacent, lemma_offsets, nodes_wf, offset_of, AlefComponentModule, Node};
use crate::text::{
    advance, advance_units, append_all, append_range, cap, capped, column_at,
    lemma_position_prefix, lemma_unit_column_prefix, line_at, unit_column_at,
};
use vstd::prelude::*;

verus! {

/// One entry of the position table: the text emitted at this line and
/// column stems from the source at that line and column. All four are
/// counted from zero. The columns count UTF-16 code units, as the readers
/// of source maps do, and are capped at the largest machine word.
#[derive(Clone, Copy, Debug, PartialEq, Eq, Structural)]
pub struct Mapping {
    pub generated_line: usize,
    pub generated_column: usize,
    pub source_line: usize,
    pub source_column: usize,
}

/// What the emitter has produced.
pub ghost struct Emitted {
    pub code: Seq<char>,
    pub mappings: Seq<Mapping>,
}

/// The pair of code and table.
pub open spec fn emitted(code: Seq<char>, mappings: Seq<Mapping>) -> Emitted {
    Emitted { code, mappings }
}

/// The rewrites lie inside a tree of `len` nodes, in document order and
/// apart from each other.
pub open spec fn rewrites_ok(len: int, rewrites: Seq<RewriteView>) -> bool {
    &&& forall|k: int|
        0 <= k < rewrites.len() ==> (#[trigger] rewrites[k]).first <= rewrites[k].last < len
    &&& forall|a: int, b: int|
        0 <= a < b < rewrites.len() ==> (#[trigger] rewrites[a]).last < (#[trigger] rewrites[b]).first
}

/// `out` with `text` appended. Where `mapped` is set, the table gains an
/// entry that leads from the place where `text` starts to the start of
/// `anchor`.
pub open spec fn piece(
    src: Seq<char>,
    out: Emitted,
    text: Seq<char>,
    anchor: Node,
    mapped: bool,
) -> Emitted {
    Emitted {
        code: out.code + text,
        mappings: if mapped {
            out.mappings.push(
                Mapping {
                    generated_line: line_at(out.code, out.code.len() as int) as usize,
                    generated_column: capped(unit_column_at(out.code, out.code.len() as int)),
                    source_line: anchor.span.line,
                    source_column: capped(unit_column_at(src, anchor.span.start as int)),
                },
            )
        } else {
            out.mappings
        },
    }
}

/// Emission from node `i` on, `r` rewrites having been applied and `out`
/// having been produced before.
///
/// Where the next rewrite starts at node `i`, its text is emitted in place
/// of the nodes it covers. Otherwise node `i` is emitted as the text it
/// covers. Every piece but whitespace and comments gets an entry in the
/// table.
pub open spec fn emit_from(
    src: Seq<char>,
    nodes: Seq<Node>,
    rewrites: Seq<RewriteView>,
    i: int,
    r: int,
    out: Emitted,
) -> Emitted
    decreases nodes.len() - i,
{
    if i < 0 || i >= nodes.len() {
        out
    } else if 0 <= r < rewrites.len() && rewrites[r].first == i {
        let last = rewrites[r].last as int;
        emit_from(
            src,
            nodes,
            rewrites,
            if i <= last < nodes.len() {
                last + 1
            } else {
                i + 1
            },
            r + 1,
            piece(src, out, rewrites[r].text, nodes[i], true),
        )
    } else {
        emit_from(
            src,
            nodes,
            rewrites,
            i + 1,
            r,
            piece(src, out, nodes[i].span.text(src), nodes[i], !nodes[i].kind.is_trivia()),
        )
    }
}

/// The code and the position table of a tree with its rewrites.
pub open spec fn emit_model(src: Seq<char>, nodes: Seq<Node>, rewrites: Seq<RewriteView>) -> Emitted {
    emit_from(src, nodes, rewrites, 0, 0, Emitted { code: Seq::empty(), mappings: Seq::empty() })
}

/// The source from offset `from` on, with each of the rewrites from number
/// `r` on put in place of the text that its nodes cover.
pub open spec fn spliced(
    src: Seq<char>,
    nodes: Seq<Node>,
    rewrites: Seq<RewriteView>,
    r: int,
    from: int,
) -> Seq<char>
    decreases rewrites.len() - r,
{
    if r < 0 || r >= rewrites.len() {
        src.subrange(from, src.len() as int)
    } else {
        src.subrange(from, nodes[rewrites[r].first as int].span.start as int) + rewrites[r].text
            + spliced(src, nodes, rewrites, r + 1, nodes[rewrites[r].last as int].span.end as int)
    }
}

/// Emission from node `i` on appends the rest of the source with the
/// remaining rewrites in place.
pub proof fn lemma_emit_splices(
    src: Seq<char>,
    nodes: Seq<Node>,
    rewrites: Seq<RewriteView>,
    i: int,
    r: int,
    out: Emitted,
)
    requires
        nodes_wf(src, nodes),
        rewrites_ok(nodes.len() as int, rewrites),
        0 <= i <= nodes.len(),
        0 <= r <= rewrites.len(),
        r < rewrites.len() ==> i <= rewrites[r].first,
    ensures
        emit_from(src, nodes, rewrites, i, r, out).code == out.code + spliced(
            src,
            nodes,
            rewrites,
            r,
            offset_of(src, nodes, i),
        ),
    decreases nodes.len() - i,
{
    let here = offset_of(src, nodes, i);
    if i >= nodes.len() {
        if r < rewrites.len() {
            assert(rewrites[r].first < nodes.len());
        }
        assert(out.code + src.subrange(here, src.len() as int) =~= out.code);
    } else {
        let node = nodes[i];
        assert(node.span.within(src));
        if r < rewrites.len() && rewrites[r].first == i {
            let last = rewrites[r].last as int;
            let next = piece(src, out, rewrites[r].text, node, true);
            if r + 1 < rewrites.len() {
                assert(rewrites[r].last < rewrites[r + 1].first);
            }
            lemma_emit_splices(src, nodes, rewrites, last + 1, r + 1, next);
            lemma_offsets(src, nodes, last, last + 1);
            if last + 1 < nodes.len() {
                assert(adjacent(nodes, last));
            }
            assert(nodes[last].span.within(src));
            assert(offset_of(src, nodes, last + 1) == nodes[last].span.end);
            assert(src.subrange(here, here) =~= Seq::<char>::empty());
            assert(out.code + rewrites[r].text + spliced(
                src,
                nodes,
                rewrites,
                r + 1,
                nodes[last].span.end as int,
            ) =~= out.code + (src.subrange(here, here) + rewrites[r].text + spliced(
                src,
                nodes,
                rewrites,
                r + 1,
                nodes[last].span.end as int,
            )));
        } else {
            let next = piece(src, out, node.span.text(src), node, !node.kind.is_trivia());
            lemma_emit_splices(src, nodes, rewrites, i + 1, r, next);
            if i + 1 < nodes.len() {
                assert(adjacent(nodes, i));
            }
            let there = offset_of(src, nodes, i + 1);
            assert(there == node.span.end);
            if r < rewrites.len() {
                let first = rewrites[r].first as int;
                let start = nodes[first].span.start as int;
                lemma_offsets(src, nodes, i + 1, first);
                let rest = rewrites[r].text + spliced(
                    src,
                    nodes,
                    rewrites,
                    r + 1,
                    nodes[rewrites[r].last as int].span.end as int,
                );
                assert(src.subrange(here, start) =~= node.span.text(src) + src.subrange(
                    there,
                    start,
                ));
                assert(out.code + node.span.text(src) + (src.subrange(there, start) + rest)
                    =~= out.code + (src.subrange(here, start) + rest));
                assert(src.subrange(there, start) + rewrites[r].text + spliced(
                    src,
                    nodes,
                    rewrites,
                    r + 1,
                    nodes[rewrites[r].last as int].span.end as int,
                ) =~= src.subrange(there, start) + rest);
                assert(src.subrange(here, start) + rewrites[r].text + spliced(
                    src,
                    nodes,
                    rewrites,
                    r + 1,
                    nodes[rewrites[r].last as int].span.end as int,
                ) =~= src.subrange(here, start) + rest);
            } else {
                assert(out.code + node.span.text(src) + src.subrange(there, src.len() as int)
                    =~= out.code + src.subrange(here, src.len() as int));
            }
        }
    }
}

/// The emitted code is the source with each rewrite put in place of the
/// text that its nodes cover.
pub proof fn lemma_emit_model_splices(src: Seq<char>, nodes: Seq<Node>, rewrites: Seq<RewriteView>)
    requires
        nodes_wf(src, nodes),
        rewrites_ok(nodes.len() as int, rewrites),
    ensures
        emit_model(src, nodes, rewrites).code == spliced(src, nodes, rewrites, 0, 0),
{
    let start = Emitted { code: Seq::empty(), mappings: Seq::empty() };
    lemma_emit_splices(src, nodes, rewrites, 0, 0, start);
    if nodes.len() == 0 {
        assert(offset_of(src, nodes, 0) == 0);
    }
    assert(start.code + spliced(src, nodes, rewrites, 0, 0) =~= spliced(src, nodes, rewrites, 0, 0));
}

/// A tree without rewrites is emitted as its source.
pub proof fn lemma_emit_identity(src: Seq<char>, nodes: Seq<Node>)
    requires
        nodes_wf(src, nodes),
    ensures
        emit_model(src, nodes, Seq::empty()).code == src,
{
    lemma_emit_model_splices(src, nodes, Seq::empty());
    assert(src.subrange(0, src.len() as int) =~= src);
}

/// Writes the tree of `module` out again, with `rewrites` applied, and
/// builds the position table.
///
/// The code is the source with each rewrite put in place of the text that
/// its nodes cover. Where no rewrite has an empty text, the table is
/// anchored in the code and in the source.
pub fn emit(module: &AlefComponentModule, rewrites: &Vec<Rewrite>) -> (r: (Vec<char>, Vec<Mapping>))
    requires
        module.wf(),
        rewrites_ok(module.nodes@.len() as int, rewrite_views(rewrites@)),
    ensures
        emitted(r.0@, r.1@) == emit_model(
            module.source@,
            module.nodes@,
            rewrite_views(rewrites@),
        ),
        r.0@ == spliced(module.source@, module.nodes@, rewrite_views(rewrites@), 0, 0),
        rewrites_visible(rewrite_views(rewrites@)) ==> anchored(
            r.0@,
            module.source@,
            r.1@,
            anchors(module.nodes@, rewrite_views(rewrites@)),
        ),
{
    proof {
        lemma_emit_model_splices(module.source@, module.nodes@, rewrite_views(rewrites@));
        if rewrites_visible(rewrite_views(rewrites@)) {
            lemma_mappings_anchored(module.source@, module.nodes@, rewrite_views(rewrites@));
        }
    }
    let src = &module.source;
    let nodes = &module.nodes;
    let mut code: Vec<char> = Vec::new();
    let mut mappings: Vec<Mapping> = Vec::new();
    let mut line: usize = 0;
    let mut column: usize = 0;
    let mut units: u128 = 0;
    let mut seen: usize = 0;
    let mut seen_units: u128 = 0;
    let mut i: usize = 0;
    let mut r: usize = 0;
    let ghost views = rewrite_views(rewrites@);
    while i < nodes.len()
        invariant
            module.wf(),
            src == &module.source,
            nodes == &module.nodes,
            views == rewrite_views(rewrites@),
            rewrites_ok(nodes@.len() as int, views),
            r <= rewrites.len(),
            line == line_at(code@, code@.len() as int),
            column == column_at(code@, code@.len() as int),
            units == unit_column_at(code@, code@.len() as int),
            seen <= src.len(),
            seen_units == unit_column_at(src@, seen as int),
            i < nodes.len() ==> seen <= nodes[i as int].span.start,
            emit_model(src@, nodes@, views) == emit_from(
                src@,
                nodes@,
                views,
                i as int,
                r as int,
                emitted(code@, mappings@),
            ),
        decreases nodes.len() - i,
    {
        let node = nodes[i];
        let ghost before = code@;
        let at = code.len();
        let mapped;
        let next;
        assert(nodes@[i as int].span.within(src@));
        seen_units = advance_units(src, seen, node.span.start, seen_units);
        seen = node.span.start;
        if r < rewrites.len() && rewrites[r].first == i {
            assert(views[r as int] == rewrites@[r as int]@);
            append_all(&mut code, &rewrites[r].text);
            mapped = true;
            next = rewrites[r].last + 1;
            r += 1;
        } else {
            assert(nodes@[i as int].span.within(src@));
            append_range(&mut code, src, node.span.start, node.span.end);
            mapped = !node.kind.trivia();
            next = i + 1;
        }
        if mapped {
            mappings.push(
                Mapping {
                    generated_line: line,
                    generated_column: cap(units),
                    source_line: node.span.line,
                    source_column: cap(seen_units),
                },
            );
        }
        proof {
            lemma_position_prefix(before, code@, at as int);
            lemma_unit_column_prefix(before, code@, at as int);
            lemma_offsets(src@, nodes@, i as int, next as int);
        }
        let p = advance(&code, at, code.len(), line, column);
        line = p.0;
        column = p.1;
        units = advance_units(&code, at, code.len(), units);
        i = next;
    }
    (code, mappings)
}

} // verus!
