//! How the position table hangs together with the emitted code and the
//! source: every entry leads from the place where a piece of the code
//! starts to the start of the node that the piece stems from, and the
//! entries advance through both texts.

use crate::ast_walker::RewriteView;
use crate::emit::{emit_from, emit_model, emitted, piece, rewrites_ok, Emitted, Mapping};
use crate::module::{lemma_offsets, nodes_wf, Node};
use crate::text::{
    capped, lemma_position_prefix, lemma_unit_column_prefix, line_at, unit_column_at,
};
use vstd::prelude::*;

verus! {

/// The offsets that an entry of the position table ties together: where a
/// piece starts in the emitted code, and where its node starts in the
/// source.
pub ghost struct Anchor {
    pub generated: int,
    pub source: int,
}

/// The anchors of the pieces emitted from node `i` on, appended to `acc`;
/// `at` is the length of the code emitted before.
pub open spec fn anchors_from(
    nodes: Seq<Node>,
    rewrites: Seq<RewriteView>,
    i: int,
    r: int,
    at: int,
    acc: Seq<Anchor>,
) -> Seq<Anchor>
    decreases nodes.len() - i,
{
    if i < 0 || i >= nodes.len() {
        acc
    } else {
        let here = Anchor { generated: at, source: nodes[i].span.start as int };
        if 0 <= r < rewrites.len() && rewrites[r].first == i {
            let last = rewrites[r].last as int;
            anchors_from(
                nodes,
                rewrites,
                if i <= last < nodes.len() {
                    last + 1
                } else {
                    i + 1
                },
                r + 1,
                at + rewrites[r].text.len(),
                acc.push(here),
            )
        } else {
            anchors_from(
                nodes,
                rewrites,
                i + 1,
                r,
                at + (nodes[i].span.end - nodes[i].span.start),
                if nodes[i].kind.is_trivia() {
                    acc
                } else {
                    acc.push(here)
                },
            )
        }
    }
}

/// The anchors of all pieces of a tree with its rewrites.
pub open spec fn anchors(nodes: Seq<Node>, rewrites: Seq<RewriteView>) -> Seq<Anchor> {
    anchors_from(nodes, rewrites, 0, 0, 0, Seq::empty())
}

/// The entry that ties the two offsets of `anchor` together: lines as
/// they are, columns in UTF-16 code units.
pub open spec fn mapping_at(code: Seq<char>, src: Seq<char>, anchor: Anchor) -> Mapping {
    Mapping {
        generated_line: line_at(code, anchor.generated) as usize,
        generated_column: capped(unit_column_at(code, anchor.generated)),
        source_line: line_at(src, anchor.source) as usize,
        source_column: capped(unit_column_at(src, anchor.source)),
    }
}

/// The table `mappings` is the one that `anchors` describe over `code`
/// and `src`: entry by entry, with anchors that lie inside the two texts
/// and advance through both.
pub open spec fn anchored(
    code: Seq<char>,
    src: Seq<char>,
    mappings: Seq<Mapping>,
    anchors: Seq<Anchor>,
) -> bool {
    &&& mappings.len() == anchors.len()
    &&& forall|k: int|
        0 <= k < anchors.len() ==> {
            &&& 0 <= (#[trigger] anchors[k]).generated < code.len()
            &&& 0 <= anchors[k].source < src.len()
            &&& mappings[k] == mapping_at(code, src, anchors[k])
        }
    &&& forall|a: int, b: int|
        0 <= a < b < anchors.len() ==> (#[trigger] anchors[a]).generated
            < (#[trigger] anchors[b]).generated && anchors[a].source < anchors[b].source
}

/// No rewrite has an empty text.
pub open spec fn rewrites_visible(rewrites: Seq<RewriteView>) -> bool {
    forall|k: int| 0 <= k < rewrites.len() ==> (#[trigger] rewrites[k]).text.len() > 0
}

proof fn lemma_anchored_piece(
    src: Seq<char>,
    out: Emitted,
    acc: Seq<Anchor>,
    text: Seq<char>,
    anchor: Node,
    mapped: bool,
)
    requires
        anchored(out.code, src, out.mappings, acc),
        text.len() > 0,
        anchor.span.within(src),
        anchor.span.start < src.len(),
        forall|k: int| 0 <= k < acc.len() ==> (#[trigger] acc[k]).source < anchor.span.start,
    ensures
        anchored(
            out.code + text,
            src,
            piece(src, out, text, anchor, mapped).mappings,
            if mapped {
                acc.push(Anchor { generated: out.code.len() as int, source: anchor.span.start as int })
            } else {
                acc
            },
        ),
{
    let code2 = out.code + text;
    let next = piece(src, out, text, anchor, mapped);
    let here = Anchor { generated: out.code.len() as int, source: anchor.span.start as int };
    let acc2 = if mapped {
        acc.push(here)
    } else {
        acc
    };
    lemma_position_prefix(out.code, code2, out.code.len() as int);
    lemma_unit_column_prefix(out.code, code2, out.code.len() as int);
    assert forall|k: int| 0 <= k < acc2.len() implies {
        &&& 0 <= (#[trigger] acc2[k]).generated < code2.len()
        &&& 0 <= acc2[k].source < src.len()
        &&& next.mappings[k] == mapping_at(code2, src, acc2[k])
    } by {
        if k < acc.len() {
            assert(acc2[k] == acc[k]);
            lemma_position_prefix(out.code, code2, acc[k].generated);
            lemma_unit_column_prefix(out.code, code2, acc[k].generated);
        }
    }
    assert forall|a: int, b: int| 0 <= a < b < acc2.len() implies (#[trigger] acc2[a]).generated < (
    #[trigger] acc2[b]).generated && acc2[a].source < acc2[b].source by {
        assert(acc2[a] == acc[a]);
        if b < acc.len() {
            assert(acc2[b] == acc[b]);
        }
    }
}

proof fn lemma_anchored_from(
    src: Seq<char>,
    nodes: Seq<Node>,
    rewrites: Seq<RewriteView>,
    i: int,
    r: int,
    out: Emitted,
    acc: Seq<Anchor>,
)
    requires
        nodes_wf(src, nodes),
        rewrites_ok(nodes.len() as int, rewrites),
        rewrites_visible(rewrites),
        0 <= i <= nodes.len(),
        0 <= r <= rewrites.len(),
        r < rewrites.len() ==> i <= rewrites[r].first,
        anchored(out.code, src, out.mappings, acc),
        forall|k: int|
            0 <= k < acc.len() ==> (#[trigger] acc[k]).source < crate::module::offset_of(
                src,
                nodes,
                i,
            ),
    ensures
        anchored(
            emit_from(src, nodes, rewrites, i, r, out).code,
            src,
            emit_from(src, nodes, rewrites, i, r, out).mappings,
            anchors_from(nodes, rewrites, i, r, out.code.len() as int, acc),
        ),
    decreases nodes.len() - i,
{
    if i < nodes.len() {
        let node = nodes[i];
        assert(node.span.within(src));
        assert(node.span.start < node.span.end);
        if r < rewrites.len() && rewrites[r].first == i {
            let last = rewrites[r].last as int;
            let next = piece(src, out, rewrites[r].text, node, true);
            if r + 1 < rewrites.len() {
                assert(rewrites[r].last < rewrites[r + 1].first);
            }
            lemma_anchored_piece(src, out, acc, rewrites[r].text, node, true);
            lemma_offsets(src, nodes, i, last + 1);
            lemma_anchored_from(
                src,
                nodes,
                rewrites,
                last + 1,
                r + 1,
                next,
                acc.push(Anchor { generated: out.code.len() as int, source: node.span.start as int }),
            );
        } else {
            let mapped = !node.kind.is_trivia();
            let next = piece(src, out, node.span.text(src), node, mapped);
            lemma_anchored_piece(src, out, acc, node.span.text(src), node, mapped);
            lemma_offsets(src, nodes, i, i + 1);
            lemma_anchored_from(
                src,
                nodes,
                rewrites,
                i + 1,
                r,
                next,
                if mapped {
                    acc.push(
                        Anchor { generated: out.code.len() as int, source: node.span.start as int },
                    )
                } else {
                    acc
                },
            );
        }
    }
}

/// The position table of an emission is anchored in its code and in the
/// source: every entry is the line and column of the start of a piece in
/// the code, tied to the line and column of the start of its node in the
/// source, and the entries advance strictly through both texts.
pub proof fn lemma_mappings_anchored(src: Seq<char>, nodes: Seq<Node>, rewrites: Seq<RewriteView>)
    requires
        nodes_wf(src, nodes),
        rewrites_ok(nodes.len() as int, rewrites),
        rewrites_visible(rewrites),
    ensures
        anchored(
            emit_model(src, nodes, rewrites).code,
            src,
            emit_model(src, nodes, rewrites).mappings,
            anchors(nodes, rewrites),
        ),
{
    lemma_anchored_from(src, nodes, rewrites, 0, 0, emitted(Seq::empty(), Seq::empty()), Seq::empty());
}

} // verus!
