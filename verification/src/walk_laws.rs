//! What holds of everything a walk records: each record points at the
//! text it was read from, and the records stand in document order.

use crate::ast_walker::{
    css_id, expr_span, first_nested, import_view, literal_text, quoted, record_import,
    record_style, runs_into_word, style_dependency, style_span, style_view, template_exprs,
    walk_from, RewriteView, WalkState,
};
use crate::classify::{after, classify, lemma_classify, skip_trivia, Visit};
use crate::emit::rewrites_ok;
use crate::map_laws::rewrites_visible;
use crate::lexer::{is_quote, kw_css, Delim, NodeKind};
use crate::module::{
    adjacent, inside_ok, kind_fits, lemma_offsets, lemma_tiled_count, link_ok, nodes_wf,
    offset_of, Node,
};
use crate::options::{CssExtractionMode, EmitOptions};
use crate::resolve::{normalize, CssView, DependencyView, ImportKind};
use crate::span::Span;
use vstd::prelude::*;

verus! {

/// The span covers a string literal of `src`, quotes included.
pub open spec fn covers_literal(src: Seq<char>, span: Span) -> bool {
    &&& span.within(src)
    &&& span.end - span.start >= 2
    &&& is_quote(src[span.start as int])
    &&& src[span.end - 1] == src[span.start as int]
}

/// The span covers a style template of `src`: it starts with the tag
/// `css` and ends with the closing backtick of the template.
pub open spec fn covers_style(src: Seq<char>, span: Span) -> bool {
    &&& span.within(src)
    &&& span.end - span.start >= 5
    &&& src.subrange(span.start as int, span.start + 3) == kw_css()
    &&& src[span.end - 1] == '`'
}

/// The descriptor agrees with the source. An import points at a string
/// literal, its specifier is the text between the quotes and its resolved
/// form the normal form of that text. A style reference points at a style
/// template.
pub open spec fn dependency_ok(src: Seq<char>, d: DependencyView) -> bool {
    match d.kind {
        ImportKind::Css => covers_style(src, d.span) && d.resolved == d.specifier,
        _ => covers_literal(src, d.span) && d.specifier == src.subrange(
            d.span.start + 1,
            d.span.end - 1,
        ) && d.resolved == normalize(d.specifier),
    }
}

/// The span covers an interpolated expression of the style template at
/// `outer`: it lies strictly inside the template, after `${` and before
/// `}`.
pub open spec fn covers_expr(src: Seq<char>, outer: Span, e: Span) -> bool {
    &&& e.within(src)
    &&& outer.start + 2 <= e.start
    &&& e.end < outer.end
    &&& src[e.start - 2] == '$'
    &&& src[e.start - 1] == '{'
    &&& src[e.end as int] == '}'
}

/// The template record agrees with the source: it points at a style
/// template, and its expressions are interpolations of that template, in
/// order and apart.
pub open spec fn css_ok(src: Seq<char>, c: CssView) -> bool {
    &&& covers_style(src, c.span)
    &&& forall|k: int| 0 <= k < c.exprs.len() ==> covers_expr(src, c.span, #[trigger] c.exprs[k])
    &&& forall|a: int, b: int|
        0 <= a < b < c.exprs.len() ==> (#[trigger] c.exprs[a]).end < (#[trigger] c.exprs[b]).start
}

/// The rewrite is one that the options ask for. Either it puts a string
/// literal into the normal form of its specifier, between the quotes of
/// the literal, or it puts the identifier of a style template in place of
/// the tag and the template.
pub open spec fn rewrite_fits(
    src: Seq<char>,
    nodes: Seq<Node>,
    opts: EmitOptions,
    r: RewriteView,
) -> bool {
    let first = nodes[r.first as int];
    ||| {
        &&& opts.rewrite_specifiers
        &&& first.kind == NodeKind::Str
        &&& r.first == r.last
        &&& r.text == quoted(
            src[first.span.start as int],
            normalize(literal_text(src, first)),
        )
        &&& normalize(literal_text(src, first)) != literal_text(src, first)
    }
    ||| {
        &&& opts.css_extraction_mode == CssExtractionMode::Lifted
        &&& first.kind == NodeKind::CssTag
        &&& r.first < skip_trivia(nodes, r.first + 1) < r.last
        &&& nodes[skip_trivia(nodes, r.first + 1)].kind == NodeKind::Open(Delim::Template)
        &&& nodes[skip_trivia(nodes, r.first + 1)].link == r.last
        &&& !runs_into_word(src, nodes, r.last as int)
        &&& exists|n: nat| r.text == #[trigger] css_id(n)
    }
}

/// Among `deps` stands the reference to the style template `css`.
pub open spec fn has_reference(deps: Seq<DependencyView>, css: CssView) -> bool {
    exists|d: int| 0 <= d < deps.len() && #[trigger] deps[d] == style_dependency(css)
}

/// The descriptor `dep` is the reference to one of the style templates.
pub open spec fn refers(css: Seq<CssView>, dep: DependencyView) -> bool {
    exists|k: int| 0 <= k < css.len() && dep == style_dependency(#[trigger] css[k])
}

/// What holds of the state of a walk that has reached node `i`.
pub open spec fn walk_inv(
    src: Seq<char>,
    nodes: Seq<Node>,
    opts: EmitOptions,
    i: int,
    st: WalkState,
) -> bool {
    let bound = offset_of(src, nodes, i);
    &&& forall|k: int|
        0 <= k < st.deps.len() ==> dependency_ok(src, #[trigger] st.deps[k]) && st.deps[k].span.start
            < bound
    &&& forall|a: int, b: int|
        0 <= a < b < st.deps.len() ==> (#[trigger] st.deps[a]).span.start
            < (#[trigger] st.deps[b]).span.start
    &&& forall|k: int|
        0 <= k < st.css.len() ==> css_ok(src, #[trigger] st.css[k]) && st.css[k].span.start < bound
            && st.css[k].id == css_id(k as nat)
    &&& forall|a: int, b: int|
        0 <= a < b < st.css.len() ==> (#[trigger] st.css[a]).span.start
            < (#[trigger] st.css[b]).span.start
    &&& rewrites_ok(nodes.len() as int, st.rewrites)
    &&& rewrites_visible(st.rewrites)
    &&& forall|k: int|
        0 <= k < st.rewrites.len() ==> (#[trigger] st.rewrites[k]).last < i && rewrite_fits(
            src,
            nodes,
            opts,
            st.rewrites[k],
        )
    &&& st.rewrites.len() <= st.deps.len()
    &&& st.css.len() <= st.deps.len()
    &&& forall|k: int| 0 <= k < st.css.len() ==> has_reference(st.deps, #[trigger] st.css[k])
    &&& forall|d: int|
        0 <= d < st.deps.len() && (#[trigger] st.deps[d]).kind == ImportKind::Css ==> refers(
            st.css,
            st.deps[d],
        )
}

/// The state in which every walk of a compilation starts.
pub open spec fn empty_state() -> WalkState {
    WalkState { deps: Seq::empty(), css: Seq::empty(), rewrites: Seq::empty() }
}

proof fn lemma_first_nested(nodes: Seq<Node>, j: int, close: int)
    requires
        0 <= j,
    ensures
        first_nested(nodes, j, close) matches Some(x) ==> j <= x < close && x < nodes.len(),
    decreases nodes.len() - j,
{
    if j < close && j < nodes.len() {
        if !(nodes[j].kind is Open && nodes[j].kind != NodeKind::Open(Delim::Interpolation)) {
            lemma_first_nested(nodes, j + 1, close);
        }
    }
}

/// What holds of the expressions gathered from a template while node `j`
/// is the next to be looked at.
spec fn exprs_inv(src: Seq<char>, nodes: Seq<Node>, outer: Span, j: int, acc: Seq<Span>) -> bool {
    &&& forall|k: int|
        0 <= k < acc.len() ==> covers_expr(src, outer, #[trigger] acc[k]) && acc[k].end
            < offset_of(src, nodes, j)
    &&& forall|a: int, b: int| 0 <= a < b < acc.len() ==> (#[trigger] acc[a]).end < (#[trigger] acc[b]).start
}

proof fn lemma_template_exprs(
    src: Seq<char>,
    nodes: Seq<Node>,
    t: int,
    j: int,
    outer: Span,
    acc: Seq<Span>,
)
    requires
        nodes_wf(src, nodes),
        0 <= t < j <= nodes[t].link < nodes.len(),
        nodes[t].kind is Open,
        outer.start <= nodes[t].span.start,
        outer.end == nodes[nodes[t].link as int].span.end,
        exprs_inv(src, nodes, outer, j, acc),
    ensures
        exprs_inv(
            src,
            nodes,
            outer,
            nodes[t].link as int,
            template_exprs(nodes, j, nodes[t].link as int, acc),
        ),
    decreases nodes.len() - j,
{
    let close = nodes[t].link as int;
    if j < close {
        if nodes[j].kind == NodeKind::Open(Delim::Interpolation) {
            let next = after(nodes, j);
            let c = nodes[j].link as int;
            let e = expr_span(nodes, j);
            assert(link_ok(nodes, j, Seq::empty()));
            assert(inside_ok(nodes, t, j));
            assert(kind_fits(src, nodes[j]));
            assert(kind_fits(src, nodes[c]));
            assert(adjacent(nodes, j));
            assert(nodes[j].span.within(src));
            assert(nodes[j + 1].span.within(src));
            assert(nodes[c].span.within(src));
            assert(nodes[close].span.within(src));
            lemma_offsets(src, nodes, t, j);
            lemma_offsets(src, nodes, j + 1, c);
            lemma_offsets(src, nodes, c, close);
            lemma_offsets(src, nodes, c, next);
            assert(covers_expr(src, outer, e));
            let acc2 = acc.push(e);
            assert forall|k: int| 0 <= k < acc2.len() implies covers_expr(
                src,
                outer,
                #[trigger] acc2[k],
            ) && acc2[k].end < offset_of(src, nodes, next) by {
                if k < acc.len() {
                    assert(acc2[k] == acc[k]);
                }
            }
            assert forall|a: int, b: int| 0 <= a < b < acc2.len() implies (#[trigger] acc2[a]).end < (
            #[trigger] acc2[b]).start by {
                assert(acc2[a] == acc[a]);
                if b < acc.len() {
                    assert(acc2[b] == acc[b]);
                }
            }
            lemma_template_exprs(src, nodes, t, next, outer, acc2);
            assert(template_exprs(nodes, j, close, acc) == template_exprs(nodes, next, close, acc2));
        } else {
            lemma_offsets(src, nodes, j, j + 1);
            lemma_template_exprs(src, nodes, t, j + 1, outer, acc);
            assert(template_exprs(nodes, j, close, acc) == template_exprs(nodes, j + 1, close, acc));
        }
    }
}

/// A style template that the walk classifies is covered by its span.
proof fn lemma_style(src: Seq<char>, nodes: Seq<Node>, i: int, count: nat)
    requires
        nodes_wf(src, nodes),
        0 <= i < nodes.len() <= usize::MAX,
        classify(nodes, i) is Style,
    ensures
        ({
            let close = classify(nodes, i)->close as int;
            let open = classify(nodes, i)->open as int;
            &&& i < open < close < nodes.len()
            &&& nodes[close].link == open
            &&& css_ok(src, style_view(src, nodes, i, close, count))
            &&& style_span(nodes, i, close).start == nodes[i].span.start
        }),
{
    lemma_classify(nodes, i);
    let close = classify(nodes, i)->close as int;
    let open = classify(nodes, i)->open as int;
    assert(link_ok(nodes, open, Seq::empty()));
    assert(link_ok(nodes, close, Seq::empty()));
    assert(kind_fits(src, nodes[i]));
    assert(kind_fits(src, nodes[open]));
    assert(kind_fits(src, nodes[close]));
    assert(nodes[i].span.within(src));
    assert(nodes[open].span.within(src));
    assert(nodes[close].span.within(src));
    lemma_offsets(src, nodes, i, open);
    lemma_offsets(src, nodes, open, close);
    let span = style_span(nodes, i, close);
    assert(nodes[i].span.text(src).len() == 3);
    assert(src.subrange(span.start as int, span.start + 3) =~= nodes[i].span.text(src));
    lemma_template_exprs(src, nodes, open, open + 1, span, Seq::empty());
}

proof fn lemma_record_import(
    src: Seq<char>,
    nodes: Seq<Node>,
    opts: EmitOptions,
    i: int,
    st: WalkState,
    s: int,
    kind: ImportKind,
)
    requires
        nodes_wf(src, nodes),
        0 <= i < s < nodes.len() <= usize::MAX,
        nodes[s].kind == NodeKind::Str,
        kind != ImportKind::Css,
        walk_inv(src, nodes, opts, i, st),
    ensures
        walk_inv(src, nodes, opts, s + 1, record_import(src, nodes, opts, st, s, kind)),
{
    let st2 = record_import(src, nodes, opts, st, s, kind);
    let dep = import_view(src, nodes[s], kind);
    assert(kind_fits(src, nodes[s]));
    assert(nodes[s].span.within(src));
    lemma_offsets(src, nodes, i, s);
    lemma_offsets(src, nodes, s, s + 1);
    lemma_offsets(src, nodes, i, s + 1);
    assert(dependency_ok(src, dep));
    assert forall|k: int| 0 <= k < st2.deps.len() implies dependency_ok(
        src,
        #[trigger] st2.deps[k],
    ) && st2.deps[k].span.start < offset_of(src, nodes, s + 1) by {
        if k < st.deps.len() {
            assert(st2.deps[k] == st.deps[k]);
        }
    }
    assert forall|a: int, b: int| 0 <= a < b < st2.deps.len() implies (#[trigger] st2.deps[a]).span.start
        < (#[trigger] st2.deps[b]).span.start by {
        assert(st2.deps[a] == st.deps[a]);
        if b < st.deps.len() {
            assert(st2.deps[b] == st.deps[b]);
        }
    }
    lemma_push_rewrite(
        src,
        nodes,
        opts,
        i,
        st.rewrites,
        RewriteView {
            first: s as usize,
            last: s as usize,
            text: quoted(src[nodes[s].span.start as int], dep.resolved),
        },
        s + 1,
    );
    assert forall|k: int| 0 <= k < st2.css.len() implies has_reference(
        st2.deps,
        #[trigger] st2.css[k],
    ) by {
        assert(has_reference(st.deps, st.css[k]));
        let d = choose|d: int| 0 <= d < st.deps.len() && #[trigger] st.deps[d] == style_dependency(
            st.css[k],
        );
        assert(st2.deps[d] == st.deps[d]);
    }
    assert forall|d: int|
        0 <= d < st2.deps.len() && (#[trigger] st2.deps[d]).kind == ImportKind::Css implies refers(
        st2.css,
        st2.deps[d],
    ) by {
        assert(st2.deps[d] == st.deps[d]);
    }
}

/// One more rewrite, ahead of all those decided before.
proof fn lemma_push_rewrite(
    src: Seq<char>,
    nodes: Seq<Node>,
    opts: EmitOptions,
    i: int,
    rewrites: Seq<RewriteView>,
    r: RewriteView,
    next: int,
)
    requires
        rewrites_ok(nodes.len() as int, rewrites),
        forall|k: int|
            0 <= k < rewrites.len() ==> (#[trigger] rewrites[k]).last < i && rewrite_fits(
                src,
                nodes,
                opts,
                rewrites[k],
            ),
        i <= r.first <= r.last < next <= nodes.len(),
    ensures
        rewrites_ok(nodes.len() as int, rewrites.push(r)),
        rewrites_visible(rewrites) && r.text.len() > 0 ==> rewrites_visible(rewrites.push(r)),
        forall|k: int|
            0 <= k < rewrites.len() ==> (#[trigger] rewrites[k]).last < next,
        rewrite_fits(src, nodes, opts, r) ==> forall|k: int|
            0 <= k < rewrites.push(r).len() ==> (#[trigger] rewrites.push(r)[k]).last < next
                && rewrite_fits(src, nodes, opts, rewrites.push(r)[k]),
{
    let pushed = rewrites.push(r);
    if rewrites_visible(rewrites) && r.text.len() > 0 {
        assert forall|k: int| 0 <= k < pushed.len() implies (#[trigger] pushed[k]).text.len()
            > 0 by {
            if k < rewrites.len() {
                assert(pushed[k] == rewrites[k]);
            }
        }
    }
    assert forall|k: int| 0 <= k < pushed.len() implies (#[trigger] pushed[k]).first
        <= pushed[k].last < nodes.len() by {
        if k < rewrites.len() {
            assert(pushed[k] == rewrites[k]);
        }
    }
    assert forall|a: int, b: int| 0 <= a < b < pushed.len() implies (#[trigger] pushed[a]).last < (
    #[trigger] pushed[b]).first by {
        assert(pushed[a] == rewrites[a]);
        if b < rewrites.len() {
            assert(pushed[b] == rewrites[b]);
        }
    }
    if rewrite_fits(src, nodes, opts, r) {
        assert forall|k: int| 0 <= k < pushed.len() implies (#[trigger] pushed[k]).last < next
            && rewrite_fits(src, nodes, opts, pushed[k]) by {
            if k < rewrites.len() {
                assert(pushed[k] == rewrites[k]);
            }
        }
    }
}

proof fn lemma_record_style(
    src: Seq<char>,
    nodes: Seq<Node>,
    opts: EmitOptions,
    i: int,
    st: WalkState,
    lift: bool,
)
    requires
        nodes_wf(src, nodes),
        0 <= i < nodes.len() <= usize::MAX,
        classify(nodes, i) is Style,
        lift == (opts.css_extraction_mode == CssExtractionMode::Lifted),
        lift ==> !runs_into_word(src, nodes, classify(nodes, i)->close as int),
        walk_inv(src, nodes, opts, i, st),
    ensures
        ({
            let close = classify(nodes, i)->close as int;
            walk_inv(
                src,
                nodes,
                opts,
                if lift {
                    close + 1
                } else {
                    i + 1
                },
                record_style(src, nodes, st, i, close, lift),
            )
        }),
{
    lemma_classify(nodes, i);
    let close = classify(nodes, i)->close as int;
    lemma_style(src, nodes, i, st.css.len());
    let next = if lift {
        close + 1
    } else {
        i + 1
    };
    let st2 = record_style(src, nodes, st, i, close, lift);
    let css = style_view(src, nodes, i, close, st.css.len());
    let dep = style_dependency(css);
    assert(nodes[i].span.within(src));
    lemma_offsets(src, nodes, i, i + 1);
    lemma_offsets(src, nodes, i, next);
    lemma_offsets(src, nodes, i + 1, next);
    assert(nodes[i].span.start < nodes[i].span.end);
    assert(dependency_ok(src, dep));
    assert forall|k: int| 0 <= k < st2.deps.len() implies dependency_ok(
        src,
        #[trigger] st2.deps[k],
    ) && st2.deps[k].span.start < offset_of(src, nodes, next) by {
        if k < st.deps.len() {
            assert(st2.deps[k] == st.deps[k]);
        }
    }
    assert forall|a: int, b: int| 0 <= a < b < st2.deps.len() implies (#[trigger] st2.deps[a]).span.start
        < (#[trigger] st2.deps[b]).span.start by {
        assert(st2.deps[a] == st.deps[a]);
        if b < st.deps.len() {
            assert(st2.deps[b] == st.deps[b]);
        }
    }
    assert forall|k: int| 0 <= k < st2.css.len() implies css_ok(src, #[trigger] st2.css[k])
        && st2.css[k].span.start < offset_of(src, nodes, next) && st2.css[k].id == css_id(
        k as nat,
    ) by {
        if k < st.css.len() {
            assert(st2.css[k] == st.css[k]);
        }
    }
    assert forall|a: int, b: int| 0 <= a < b < st2.css.len() implies (#[trigger] st2.css[a]).span.start
        < (#[trigger] st2.css[b]).span.start by {
        assert(st2.css[a] == st.css[a]);
        if b < st.css.len() {
            assert(st2.css[b] == st.css[b]);
        }
    }
    if lift {
        lemma_push_rewrite(
            src,
            nodes,
            opts,
            i,
            st.rewrites,
            RewriteView { first: i as usize, last: close as usize, text: css.id },
            next,
        );
    }
    assert(st2.deps[st.deps.len() as int] == dep);
    assert(st2.css[st.css.len() as int] == css);
    assert forall|k: int| 0 <= k < st2.css.len() implies has_reference(
        st2.deps,
        #[trigger] st2.css[k],
    ) by {
        if k < st.css.len() {
            assert(st2.css[k] == st.css[k]);
            assert(has_reference(st.deps, st.css[k]));
            let d = choose|d: int|
                0 <= d < st.deps.len() && #[trigger] st.deps[d] == style_dependency(st.css[k]);
            assert(st2.deps[d] == st.deps[d]);
        }
    }
    assert forall|d: int|
        0 <= d < st2.deps.len() && (#[trigger] st2.deps[d]).kind == ImportKind::Css implies refers(
        st2.css,
        st2.deps[d],
    ) by {
        if d < st.deps.len() {
            assert(st2.deps[d] == st.deps[d]);
            assert(refers(st.css, st.deps[d]));
            let k = choose|k: int|
                0 <= k < st.css.len() && st.deps[d] == style_dependency(#[trigger] st.css[k]);
            assert(st2.css[k] == st.css[k]);
        }
    }
}

/// The walk keeps its invariant, and an error of the walk points into the
/// source.
pub proof fn lemma_walk_from(
    src: Seq<char>,
    nodes: Seq<Node>,
    opts: EmitOptions,
    i: int,
    st: WalkState,
)
    requires
        nodes_wf(src, nodes),
        nodes.len() <= usize::MAX,
        0 <= i <= nodes.len(),
        walk_inv(src, nodes, opts, i, st),
    ensures
        match walk_from(src, nodes, opts, i, st) {
            Ok(end) => walk_inv(src, nodes, opts, nodes.len() as int, end),
            Err(e) => e.span.within(src),
        },
    decreases nodes.len() - i,
{
    let len = nodes.len() as int;
    if i < len {
        lemma_classify(nodes, i);
        assert(nodes[i].span.within(src));
        match classify(nodes, i) {
            Visit::Pass => {
                lemma_offsets(src, nodes, i, i + 1);
                lemma_walk_from(src, nodes, opts, i + 1, st);
            },
            Visit::Malformed(kind) => {
                lemma_offsets(src, nodes, i, i + 1);
                lemma_walk_from(src, nodes, opts, i + 1, st);
            },
            Visit::Import { source } => {
                lemma_record_import(src, nodes, opts, i, st, source as int, ImportKind::Static);
                lemma_walk_from(
                    src,
                    nodes,
                    opts,
                    source + 1,
                    record_import(src, nodes, opts, st, source as int, ImportKind::Static),
                );
            },
            Visit::ReExport { source } => {
                lemma_record_import(src, nodes, opts, i, st, source as int, ImportKind::Static);
                lemma_walk_from(
                    src,
                    nodes,
                    opts,
                    source + 1,
                    record_import(src, nodes, opts, st, source as int, ImportKind::Static),
                );
            },
            Visit::DynamicImport { source } => {
                lemma_record_import(src, nodes, opts, i, st, source as int, ImportKind::Dynamic);
                lemma_walk_from(
                    src,
                    nodes,
                    opts,
                    source + 1,
                    record_import(src, nodes, opts, st, source as int, ImportKind::Dynamic),
                );
            },
            Visit::Style { open, close } => {
                lemma_style(src, nodes, i, st.css.len());
                match opts.css_extraction_mode {
                    CssExtractionMode::Inline => {
                        lemma_record_style(src, nodes, opts, i, st, false);
                        lemma_walk_from(
                            src,
                            nodes,
                            opts,
                            i + 1,
                            record_style(src, nodes, st, i, close as int, false),
                        );
                    },
                    CssExtractionMode::Lifted => {
                        lemma_first_nested(nodes, open + 1, close as int);
                        match first_nested(nodes, open + 1, close as int) {
                            Some(x) => {
                                assert(nodes[x].span.within(src));
                            },
                            None => if runs_into_word(src, nodes, close as int) {
                                assert(style_span(nodes, i, close as int).within(src)) by {
                                    assert(nodes[close as int].span.within(src));
                                    lemma_offsets(src, nodes, i, close as int);
                                }
                            } else {
                                lemma_record_style(src, nodes, opts, i, st, true);
                                lemma_walk_from(
                                    src,
                                    nodes,
                                    opts,
                                    close + 1,
                                    record_style(src, nodes, st, i, close as int, true),
                                );
                            },
                        }
                    },
                }
            },
        }
    }
}

/// A walk that starts with nothing ends in a state that satisfies the
/// invariant.
pub proof fn lemma_walk(src: Seq<char>, nodes: Seq<Node>, opts: EmitOptions)
    requires
        nodes_wf(src, nodes),
        src.len() <= usize::MAX,
    ensures
        match walk_from(src, nodes, opts, 0, empty_state()) {
            Ok(end) => walk_inv(src, nodes, opts, nodes.len() as int, end),
            Err(e) => e.span.within(src),
        },
{
    lemma_tiled_count(src, nodes, src.len() as int);
    lemma_walk_from(src, nodes, opts, 0, empty_state());
}

} // verus!
