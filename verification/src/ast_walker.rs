//! The walk: one pass over the tree in document order that records every
//! dependency and style template in the registry and decides what is
//! rewritten.
//!
//! A node is visited before the nodes inside it, and no node is visited
//! twice. What the walk decides at a node is final.

use crate::classify::{after, classify, classify_node, lemma_classify, next_after, Visit};
use crate::error::{TranspileError, TranspileErrorKind};
use crate::lexer::{is_word_char, word_char, Delim, NodeKind};
use crate::module::{kind_fits, lemma_offsets, link_ok, AlefComponentModule, Node};
use crate::options::{CssExtractionMode, EmitOptions};
use crate::resolve::{
    normalize, resolve_specifier, CSSTemplate, CssView, DependencyDescriptor, DependencyView,
    ImportKind, Resolver,
};
use crate::span::Span;
use crate::text::{append_all, append_range, decimal, decimal_chars, range_is, string_of};
use crate::walk_laws::{lemma_walk, walk_inv};
use vstd::prelude::*;

verus! {

/// A decision to replace the nodes `first..=last` by `text` in the emitted
/// code.
#[derive(Debug)]
pub struct Rewrite {
    pub first: usize,
    pub last: usize,
    pub text: Vec<char>,
}

/// The mathematical content of a [`Rewrite`].
pub ghost struct RewriteView {
    pub first: usize,
    pub last: usize,
    pub text: Seq<char>,
}

impl View for Rewrite {
    type V = RewriteView;

    open spec fn view(&self) -> RewriteView {
        RewriteView { first: self.first, last: self.last, text: self.text@ }
    }
}

/// The contents of a list of rewrites.
pub open spec fn rewrite_views(v: Seq<Rewrite>) -> Seq<RewriteView> {
    Seq::new(v.len(), |i: int| v[i]@)
}

/// What a walk has gathered.
pub ghost struct WalkState {
    pub deps: Seq<DependencyView>,
    pub css: Seq<CssView>,
    pub rewrites: Seq<RewriteView>,
}

/// The text of a string literal between its quotes.
pub open spec fn literal_text(src: Seq<char>, lit: Node) -> Seq<char> {
    src.subrange(lit.span.start + 1, lit.span.end - 1)
}

/// The descriptor of an import whose source is the literal `lit`.
pub open spec fn import_view(src: Seq<char>, lit: Node, kind: ImportKind) -> DependencyView {
    DependencyView {
        specifier: literal_text(src, lit),
        resolved: normalize(literal_text(src, lit)),
        kind,
        span: lit.span,
    }
}

/// `text` between two quotes `q`.
pub open spec fn quoted(q: char, text: Seq<char>) -> Seq<char> {
    seq![q] + text + seq![q]
}

/// The state after the import whose source literal is node `s` has been
/// recorded. The literal is rewritten to the normal form of its specifier
/// where the options ask for it and the normal form differs.
pub open spec fn record_import(
    src: Seq<char>,
    nodes: Seq<Node>,
    opts: EmitOptions,
    st: WalkState,
    s: int,
    kind: ImportKind,
) -> WalkState {
    let dep = import_view(src, nodes[s], kind);
    WalkState {
        deps: st.deps.push(dep),
        css: st.css,
        rewrites: if opts.rewrite_specifiers && dep.resolved != dep.specifier {
            st.rewrites.push(
                RewriteView {
                    first: s as usize,
                    last: s as usize,
                    text: quoted(src[nodes[s].span.start as int], dep.resolved),
                },
            )
        } else {
            st.rewrites
        },
    }
}

/// The identifier of the style template recorded after `n` others.
pub open spec fn css_id(n: nat) -> Seq<char> {
    seq!['_', '_', 'c', 's', 's', '_'] + decimal(n)
}

/// The marker that stands for interpolation number `n` in the text of a
/// style template.
pub open spec fn marker(n: nat) -> Seq<char> {
    seq!['$', '{'] + decimal(n) + seq!['}']
}

/// The text of a template whose content is the nodes `j..close`, appended
/// to `acc`: chunks as they are written, each interpolation as its marker,
/// counted from `count`.
pub open spec fn template_text(
    src: Seq<char>,
    nodes: Seq<Node>,
    j: int,
    close: int,
    count: nat,
    acc: Seq<char>,
) -> Seq<char>
    decreases nodes.len() - j,
{
    if j < 0 || j >= close || j >= nodes.len() {
        acc
    } else if nodes[j].kind == NodeKind::Chunk {
        template_text(src, nodes, j + 1, close, count, acc + nodes[j].span.text(src))
    } else if nodes[j].kind == NodeKind::Open(Delim::Interpolation) {
        template_text(src, nodes, after(nodes, j), close, count + 1, acc + marker(count))
    } else {
        template_text(src, nodes, j + 1, close, count, acc)
    }
}

/// The span of the expression inside the interpolation that node `j`
/// opens.
pub open spec fn expr_span(nodes: Seq<Node>, j: int) -> Span {
    Span {
        start: nodes[j + 1].span.start,
        end: nodes[nodes[j].link as int].span.start,
        line: nodes[j + 1].span.line,
        column: nodes[j + 1].span.column,
    }
}

/// The spans of the interpolated expressions of a template whose content
/// is the nodes `j..close`, appended to `acc`.
pub open spec fn template_exprs(nodes: Seq<Node>, j: int, close: int, acc: Seq<Span>) -> Seq<Span>
    decreases nodes.len() - j,
{
    if j < 0 || j >= close || j >= nodes.len() {
        acc
    } else if nodes[j].kind == NodeKind::Open(Delim::Interpolation) {
        template_exprs(nodes, after(nodes, j), close, acc.push(expr_span(nodes, j)))
    } else {
        template_exprs(nodes, j + 1, close, acc)
    }
}

/// Index of the first node in `j..close` that opens anything but an
/// interpolation: a bracket or a template inside an interpolation.
pub open spec fn first_nested(nodes: Seq<Node>, j: int, close: int) -> Option<int>
    decreases nodes.len() - j,
{
    if j < 0 || j >= close || j >= nodes.len() {
        None
    } else if nodes[j].kind is Open && nodes[j].kind != NodeKind::Open(Delim::Interpolation) {
        Some(j)
    } else {
        first_nested(nodes, j + 1, close)
    }
}

/// The span of the style template tagged at node `i` and closed at node
/// `close`.
pub open spec fn style_span(nodes: Seq<Node>, i: int, close: int) -> Span {
    Span {
        start: nodes[i].span.start,
        end: nodes[close].span.end,
        line: nodes[i].span.line,
        column: nodes[i].span.column,
    }
}

/// The record of the style template tagged at node `i` and closed at node
/// `close`, `count` templates having been recorded before it.
pub open spec fn style_view(src: Seq<char>, nodes: Seq<Node>, i: int, close: int, count: nat) -> CssView {
    CssView {
        id: css_id(count),
        text: template_text(src, nodes, nodes[close].link + 1, close, 0, Seq::empty()),
        span: style_span(nodes, i, close),
        exprs: template_exprs(nodes, nodes[close].link + 1, close, Seq::empty()),
    }
}

/// The descriptor that refers to a style template.
pub open spec fn style_dependency(css: CssView) -> DependencyView {
    DependencyView { specifier: css.id, resolved: css.id, kind: ImportKind::Css, span: css.span }
}

/// The state after the style template tagged at node `i` has been
/// recorded; when `lift` is set the template is to be replaced by its
/// identifier.
pub open spec fn record_style(
    src: Seq<char>,
    nodes: Seq<Node>,
    st: WalkState,
    i: int,
    close: int,
    lift: bool,
) -> WalkState {
    let css = style_view(src, nodes, i, close, st.css.len());
    WalkState {
        deps: st.deps.push(style_dependency(css)),
        css: st.css.push(css),
        rewrites: if lift {
            st.rewrites.push(RewriteView { first: i as usize, last: close as usize, text: css.id })
        } else {
            st.rewrites
        },
    }
}

/// Whether a word character stands right after node `close`.
pub open spec fn runs_into_word(src: Seq<char>, nodes: Seq<Node>, close: int) -> bool {
    nodes[close].span.end < src.len() && is_word_char(src[nodes[close].span.end as int])
}

/// The index after node `x`, which lies ahead of node `i`.
pub open spec fn beyond(len: int, i: int, x: int) -> int {
    if i < x < len {
        x + 1
    } else {
        i + 1
    }
}

/// The walk from node `i` on, `st` being what has been gathered before.
///
/// An import, static or dynamic, is recorded with its literal, and the
/// walk goes on after the literal. A malformed form, which no parsed tree
/// holds, passes. A style template is recorded with its
/// text. In inline mode the walk goes on inside it. In lifted mode the
/// template is replaced by its identifier and the walk goes on after it;
/// this fails where an interpolation of the template holds a bracket or a
/// template, and where a word follows the template so closely that the
/// identifier would run into it. Any other node passes.
pub open spec fn walk_from(
    src: Seq<char>,
    nodes: Seq<Node>,
    opts: EmitOptions,
    i: int,
    st: WalkState,
) -> Result<WalkState, TranspileError>
    decreases nodes.len() - i,
{
    let len = nodes.len() as int;
    if i < 0 || i >= len {
        Ok(st)
    } else {
        match classify(nodes, i) {
            Visit::Pass => walk_from(src, nodes, opts, i + 1, st),
            Visit::Malformed(_) => walk_from(src, nodes, opts, i + 1, st),
            Visit::Import { source } => walk_from(
                src,
                nodes,
                opts,
                beyond(len, i, source as int),
                record_import(src, nodes, opts, st, source as int, ImportKind::Static),
            ),
            Visit::ReExport { source } => walk_from(
                src,
                nodes,
                opts,
                beyond(len, i, source as int),
                record_import(src, nodes, opts, st, source as int, ImportKind::Static),
            ),
            Visit::DynamicImport { source } => walk_from(
                src,
                nodes,
                opts,
                beyond(len, i, source as int),
                record_import(src, nodes, opts, st, source as int, ImportKind::Dynamic),
            ),
            Visit::Style { open, close } => match opts.css_extraction_mode {
                CssExtractionMode::Inline => walk_from(
                    src,
                    nodes,
                    opts,
                    i + 1,
                    record_style(src, nodes, st, i, close as int, false),
                ),
                CssExtractionMode::Lifted => match first_nested(nodes, open + 1, close as int) {
                    Some(x) => Err(
                        TranspileError {
                            kind: TranspileErrorKind::UnsupportedInterpolation,
                            span: nodes[x].span,
                        },
                    ),
                    None => if runs_into_word(src, nodes, close as int) {
                        Err(
                            TranspileError {
                                kind: TranspileErrorKind::TemplateRunsIntoWord,
                                span: style_span(nodes, i, close as int),
                            },
                        )
                    } else {
                        walk_from(
                            src,
                            nodes,
                            opts,
                            beyond(len, i, close as int),
                            record_style(src, nodes, st, i, close as int, true),
                        )
                    },
                },
            },
        }
    }
}

/// What the registry holds, with the rewrites decided so far.
pub open spec fn state_of(resolver: Resolver, rewrites: Seq<Rewrite>) -> WalkState {
    WalkState {
        deps: resolver.deps(),
        css: resolver.templates(),
        rewrites: rewrite_views(rewrites),
    }
}

fn push_rewrite(rewrites: &mut Vec<Rewrite>, rewrite: Rewrite)
    ensures
        rewrite_views(final(rewrites)@) == rewrite_views(old(rewrites)@).push(rewrite@),
{
    rewrites.push(rewrite);
    assert(rewrite_views(rewrites@) =~= rewrite_views(old(rewrites)@).push(rewrite@));
}

fn record_import_at(
    module: &AlefComponentModule,
    opts: &EmitOptions,
    s: usize,
    kind: ImportKind,
    resolver: &mut Resolver,
    rewrites: &mut Vec<Rewrite>,
)
    requires
        module.wf(),
        s < module.nodes.len(),
        module.nodes[s as int].kind == NodeKind::Str,
    ensures
        state_of(*final(resolver), final(rewrites)@) == record_import(
            module.source@,
            module.nodes@,
            *opts,
            state_of(*old(resolver), old(rewrites)@),
            s as int,
            kind,
        ),
{
    let src = &module.source;
    let lit = module.nodes[s];
    assert(kind_fits(src@, module.nodes@[s as int]));
    let from = lit.span.start + 1;
    let to = lit.span.end - 1;
    let mut raw: Vec<char> = Vec::new();
    append_range(&mut raw, src, from, to);
    assert(raw@ =~= literal_text(src@, lit));
    let resolved = resolve_specifier(src, from, to);
    let same = range_is(src, from, to, resolved.as_slice());
    if opts.rewrite_specifiers && !same {
        let q = src[lit.span.start];
        let mut text: Vec<char> = Vec::new();
        text.push(q);
        append_all(&mut text, &resolved);
        text.push(q);
        assert(text@ =~= quoted(q, resolved@));
        push_rewrite(rewrites, Rewrite { first: s, last: s, text });
    }
    let descriptor = DependencyDescriptor {
        specifier: string_of(&raw),
        resolved: string_of(&resolved),
        kind,
        span: lit.span,
    };
    assert(descriptor@ == import_view(src@, lit, kind));
    resolver.record_dependency(descriptor);
}

fn style_text(module: &AlefComponentModule, start: usize, close: usize) -> (r: Vec<char>)
    requires
        module.wf(),
        start <= close < module.nodes.len(),
    ensures
        r@ == template_text(
            module.source@,
            module.nodes@,
            start as int,
            close as int,
            0,
            Seq::empty(),
        ),
{
    let src = &module.source;
    let nodes = &module.nodes;
    let mut out: Vec<char> = Vec::new();
    let mut count: usize = 0;
    let mut j: usize = start;
    while j < close
        invariant
            module.wf(),
            src == &module.source,
            nodes == &module.nodes,
            start <= j,
            close < nodes.len(),
            count <= j,
            template_text(src@, nodes@, start as int, close as int, 0, Seq::empty())
                == template_text(src@, nodes@, j as int, close as int, count as nat, out@),
        decreases nodes.len() - j,
    {
        let node = nodes[j];
        if node.kind == NodeKind::Chunk {
            assert(nodes@[j as int].span.within(src@));
            append_range(&mut out, src, node.span.start, node.span.end);
            j += 1;
        } else if node.kind == NodeKind::Open(Delim::Interpolation) {
            let ghost before = out@;
            out.push('$');
            out.push('{');
            let digits = decimal_chars(count as u128);
            append_all(&mut out, &digits);
            out.push('}');
            assert(out@ =~= before + marker(count as nat));
            count += 1;
            j = next_after(nodes, j);
        } else {
            j += 1;
        }
    }
    out
}

fn style_exprs(module: &AlefComponentModule, start: usize, close: usize) -> (r: Vec<Span>)
    requires
        module.wf(),
        start <= close < module.nodes.len(),
    ensures
        r@ == template_exprs(module.nodes@, start as int, close as int, Seq::empty()),
{
    let nodes = &module.nodes;
    let mut out: Vec<Span> = Vec::new();
    let mut j: usize = start;
    while j < close
        invariant
            module.wf(),
            nodes == &module.nodes,
            start <= j,
            close < nodes.len(),
            template_exprs(nodes@, start as int, close as int, Seq::empty()) == template_exprs(
                nodes@,
                j as int,
                close as int,
                out@,
            ),
        decreases nodes.len() - j,
    {
        let node = nodes[j];
        if node.kind == NodeKind::Open(Delim::Interpolation) {
            assert(link_ok(nodes@, j as int, Seq::empty()));
            let first = nodes[j + 1];
            let closing = nodes[node.link];
            out.push(
                Span {
                    start: first.span.start,
                    end: closing.span.start,
                    line: first.span.line,
                    column: first.span.column,
                },
            );
            j = next_after(nodes, j);
        } else {
            j += 1;
        }
    }
    out
}

fn nested_in(nodes: &Vec<Node>, start: usize, close: usize) -> (r: Option<usize>)
    requires
        start <= close < nodes.len(),
    ensures
        match r {
            Some(x) => first_nested(nodes@, start as int, close as int) == Some(x as int) && x
                < close,
            None => first_nested(nodes@, start as int, close as int) is None,
        },
{
    let mut j: usize = start;
    while j < close
        invariant
            start <= j <= close < nodes.len(),
            first_nested(nodes@, start as int, close as int) == first_nested(
                nodes@,
                j as int,
                close as int,
            ),
        decreases close - j,
    {
        match nodes[j].kind {
            NodeKind::Open(d) => {
                if d != Delim::Interpolation {
                    return Some(j);
                }
            },
            _ => {},
        }
        j += 1;
    }
    None
}

fn record_style_at(
    module: &AlefComponentModule,
    i: usize,
    close: usize,
    lift: bool,
    resolver: &mut Resolver,
    rewrites: &mut Vec<Rewrite>,
)
    requires
        module.wf(),
        i < module.nodes[close as int].link < close < module.nodes.len(),
    ensures
        state_of(*final(resolver), final(rewrites)@) == record_style(
            module.source@,
            module.nodes@,
            state_of(*old(resolver), old(rewrites)@),
            i as int,
            close as int,
            lift,
        ),
{
    let nodes = &module.nodes;
    let count = resolver.css.len();
    assert(count == resolver.templates().len());
    let mut id: Vec<char> = Vec::new();
    id.push('_');
    id.push('_');
    id.push('c');
    id.push('s');
    id.push('s');
    id.push('_');
    let digits = decimal_chars(count as u128);
    append_all(&mut id, &digits);
    assert(id@ =~= css_id(count as nat));
    let open = nodes[close].link;
    let text = style_text(module, open + 1, close);
    let exprs = style_exprs(module, open + 1, close);
    let span = Span {
        start: nodes[i].span.start,
        end: nodes[close].span.end,
        line: nodes[i].span.line,
        column: nodes[i].span.column,
    };
    let template = CSSTemplate { id: string_of(&id), text: string_of(&text), span, exprs };
    let descriptor = DependencyDescriptor {
        specifier: string_of(&id),
        resolved: string_of(&id),
        kind: ImportKind::Css,
        span,
    };
    assert(template@ == style_view(
        module.source@,
        module.nodes@,
        i as int,
        close as int,
        count as nat,
    ));
    assert(descriptor@ == style_dependency(template@));
    if lift {
        push_rewrite(rewrites, Rewrite { first: i, last: close, text: id });
    }
    resolver.record_css_template(template);
    resolver.record_dependency(descriptor);
}

/// Walks the tree of `module`, adds what it finds to `resolver`, and
/// returns the rewrites it decided, in document order.
///
/// On success the registry and the rewrites are those of `walk_from`,
/// started at the first node with what the registry held before. On
/// failure the registry holds an unfinished record and is to be dropped.
/// A walk that starts with an empty registry ends in a state that
/// satisfies `walk_inv`: its records agree with the source and stand in
/// document order, and its rewrites can be emitted.
pub fn walk(module: &AlefComponentModule, opts: &EmitOptions, resolver: &mut Resolver) -> (r: Result<
    Vec<Rewrite>,
    TranspileError,
>)
    requires
        module.wf(),
    ensures
        match r {
            Ok(rewrites) => walk_from(
                module.source@,
                module.nodes@,
                *opts,
                0,
                state_of(*old(resolver), Seq::empty()),
            ) == Ok::<WalkState, TranspileError>(state_of(*final(resolver), rewrites@)),
            Err(e) => walk_from(
                module.source@,
                module.nodes@,
                *opts,
                0,
                state_of(*old(resolver), Seq::empty()),
            ) == Err::<WalkState, TranspileError>(e),
        },
        old(resolver).deps().len() == 0 && old(resolver).templates().len() == 0 ==> match r {
            Ok(rewrites) => walk_inv(
                module.source@,
                module.nodes@,
                *opts,
                module.nodes@.len() as int,
                state_of(*final(resolver), rewrites@),
            ),
            Err(e) => e.span.within(module.source@),
        },
{
    proof {
        if old(resolver).deps().len() == 0 && old(resolver).templates().len() == 0 {
            assert(module.source@.len() <= usize::MAX);
            assert(old(resolver).deps() =~= Seq::empty());
            assert(old(resolver).templates() =~= Seq::empty());
            assert(rewrite_views(Seq::empty()) =~= Seq::empty());
            lemma_walk(module.source@, module.nodes@, *opts);
        }
    }
    let nodes = &module.nodes;
    let mut rewrites: Vec<Rewrite> = Vec::new();
    let mut i: usize = 0;
    let ghost goal = walk_from(
        module.source@,
        module.nodes@,
        *opts,
        0,
        state_of(*old(resolver), Seq::empty()),
    );
    assert(rewrite_views(rewrites@) =~= Seq::empty());
    while i < nodes.len()
        invariant
            module.wf(),
            nodes == &module.nodes,
            goal == walk_from(
                module.source@,
                module.nodes@,
                *opts,
                0,
                state_of(*old(resolver), Seq::empty()),
            ),
            goal == walk_from(
                module.source@,
                module.nodes@,
                *opts,
                i as int,
                state_of(*resolver, rewrites@),
            ),
        decreases nodes.len() - i,
    {
        proof {
            lemma_classify(nodes@, i as int);
        }
        match classify_node(nodes, i) {
            Visit::Pass => {
                i += 1;
            },
            Visit::Malformed(_) => {
                i += 1;
            },
            Visit::Import { source } => {
                record_import_at(module, opts, source, ImportKind::Static, resolver, &mut rewrites);
                i = source + 1;
            },
            Visit::ReExport { source } => {
                record_import_at(module, opts, source, ImportKind::Static, resolver, &mut rewrites);
                i = source + 1;
            },
            Visit::DynamicImport { source } => {
                record_import_at(module, opts, source, ImportKind::Dynamic, resolver, &mut rewrites);
                i = source + 1;
            },
            Visit::Style { open, close } => {
                assert(link_ok(nodes@, open as int, Seq::empty()));
                assert(link_ok(nodes@, close as int, Seq::empty()));
                match opts.css_extraction_mode {
                    CssExtractionMode::Inline => {
                        record_style_at(module, i, close, false, resolver, &mut rewrites);
                        i += 1;
                    },
                    CssExtractionMode::Lifted => {
                        match nested_in(nodes, open + 1, close) {
                            Some(x) => {
                                return Err(
                                    TranspileError {
                                        kind: TranspileErrorKind::UnsupportedInterpolation,
                                        span: nodes[x].span,
                                    },
                                );
                            },
                            None => {
                                assert(nodes@[close as int].span.within(module.source@));
                                let end = nodes[close].span.end;
                                if end < module.source.len() && word_char(module.source[end]) {
                                    proof {
                                        assert(nodes@[i as int].span.within(module.source@));
                                        lemma_offsets(
                                            module.source@,
                                            nodes@,
                                            i as int,
                                            close as int,
                                        );
                                    }
                                    return Err(
                                        TranspileError {
                                            kind: TranspileErrorKind::TemplateRunsIntoWord,
                                            span: Span {
                                                start: nodes[i].span.start,
                                                end,
                                                line: nodes[i].span.line,
                                                column: nodes[i].span.column,
                                            },
                                        },
                                    );
                                }
                                record_style_at(module, i, close, true, resolver, &mut rewrites);
                                i = close + 1;
                            },
                        }
                    },
                }
            },
        }
    }
    Ok(rewrites)
}

} // verus!
