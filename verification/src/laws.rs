//! What holds of every compilation, stated over `transform_model`, the
//! value that `transform` returns.

use crate::ast_walker::{css_id, walk_from};
use crate::emit::{emit_model, lemma_emit_identity, lemma_emit_model_splices, spliced};
use crate::error::TransformError;
use crate::lexer::NodeKind;
use crate::map_laws::{anchored, anchors, lemma_mappings_anchored};
use crate::module::{lemma_parse_wf, parse_model, tree_model};
use crate::reparse::{kinds, lemma_code_parses, rewritten_kinds};
use crate::options::{CssExtractionMode, EmitOptions};
use crate::resolve::ImportKind;
use crate::text::{column_at, line_at};
use crate::transform_model;
use crate::walk_laws::{css_ok, dependency_ok, empty_state, has_reference, lemma_walk, refers};
use crate::TransformOutputView;
use vstd::prelude::*;

verus! {

/// Compiling is deterministic: two compilations of one module under the
/// same options agree in everything, be it output or error.
pub proof fn law_same_input_same_output(
    specifier: Seq<char>,
    source: Seq<char>,
    opts: EmitOptions,
    first: Result<TransformOutputView, TransformError>,
    second: Result<TransformOutputView, TransformError>,
)
    requires
        first == transform_model(specifier, source, opts),
        second == transform_model(specifier, source, opts),
    ensures
        first == second,
{
}

/// Dependencies and style templates stand in document order: of two
/// records, the one that comes first starts earlier in the source.
pub proof fn law_document_order(specifier: Seq<char>, source: Seq<char>, opts: EmitOptions)
    requires
        source.len() <= usize::MAX,
    ensures
        transform_model(specifier, source, opts) matches Ok(out) ==> {
            &&& forall|a: int, b: int|
                0 <= a < b < out.deps.len() ==> (#[trigger] out.deps[a]).span.start
                    < (#[trigger] out.deps[b]).span.start
            &&& out.css matches Some(css) ==> forall|a: int, b: int|
                0 <= a < b < css.len() ==> (#[trigger] css[a]).span.start
                    < (#[trigger] css[b]).span.start
        },
{
    lemma_parse_wf(source);
    if let Ok(nodes) = parse_model(source) {
        lemma_walk(source, nodes, opts);
    }
}

/// Every recorded span lies in the source and covers what its record says:
/// an import a string literal whose content is the specifier, a style
/// reference and a style template the tagged template.
pub proof fn law_spans_valid(specifier: Seq<char>, source: Seq<char>, opts: EmitOptions)
    requires
        source.len() <= usize::MAX,
    ensures
        transform_model(specifier, source, opts) matches Ok(out) ==> {
            &&& forall|k: int|
                0 <= k < out.deps.len() ==> dependency_ok(source, #[trigger] out.deps[k])
            &&& out.css matches Some(css) ==> forall|k: int|
                0 <= k < css.len() ==> css_ok(source, #[trigger] css[k])
        },
{
    lemma_parse_wf(source);
    if let Ok(nodes) = parse_model(source) {
        lemma_walk(source, nodes, opts);
    }
}

/// The identifier of a style template is `__css_` followed by the number
/// of style templates before it in the module.
pub proof fn law_style_identifiers(specifier: Seq<char>, source: Seq<char>, opts: EmitOptions)
    requires
        source.len() <= usize::MAX,
    ensures
        transform_model(specifier, source, opts) matches Ok(out) ==> (out.css matches Some(css)
            ==> forall|k: int| 0 <= k < css.len() ==> (#[trigger] css[k]).id == css_id(k as nat)),
{
    lemma_parse_wf(source);
    if let Ok(nodes) = parse_model(source) {
        lemma_walk(source, nodes, opts);
    }
}

/// The source map is present exactly when the options ask for it. The
/// list of style templates is present exactly when the module has a style
/// template, that is, when a style reference stands among its
/// dependencies; it is then not empty, and every template in it has its
/// reference.
pub proof fn law_presence(specifier: Seq<char>, source: Seq<char>, opts: EmitOptions)
    requires
        source.len() <= usize::MAX,
    ensures
        transform_model(specifier, source, opts) matches Ok(out) ==> {
            &&& out.map is Some <==> opts.produce_source_map
            &&& out.css is None <==> forall|d: int|
                0 <= d < out.deps.len() ==> (#[trigger] out.deps[d]).kind != ImportKind::Css
            &&& out.css matches Some(css) ==> css.len() > 0 && forall|k: int|
                0 <= k < css.len() ==> has_reference(out.deps, #[trigger] css[k])
        },
{
    lemma_parse_wf(source);
    if let Ok(nodes) = parse_model(source) {
        lemma_walk(source, nodes, opts);
        if let Ok(st) = walk_from(source, nodes, opts, 0, empty_state()) {
            if st.css.len() > 0 {
                assert(has_reference(st.deps, st.css[0]));
            } else {
                assert forall|d: int| 0 <= d < st.deps.len() implies (#[trigger] st.deps[d]).kind
                    != ImportKind::Css by {
                    if st.deps[d].kind == ImportKind::Css {
                        assert(refers(st.css, st.deps[d]));
                    }
                }
            }
        }
    }
}

/// In inline mode no style template is rewritten: every rewrite that the
/// walk decides replaces a single string literal.
pub proof fn law_inline_rewrites_literals_only(source: Seq<char>, opts: EmitOptions)
    requires
        source.len() <= usize::MAX,
        opts.css_extraction_mode == CssExtractionMode::Inline,
    ensures
        parse_model(source) matches Ok(nodes) ==> (walk_from(
            source,
            nodes,
            opts,
            0,
            empty_state(),
        ) matches Ok(st) ==> forall|k: int|
            0 <= k < st.rewrites.len() ==> (#[trigger] st.rewrites[k]).first == st.rewrites[k].last
                && nodes[st.rewrites[k].first as int].kind == NodeKind::Str),
{
    lemma_parse_wf(source);
    if let Ok(nodes) = parse_model(source) {
        lemma_walk(source, nodes, opts);
    }
}

/// In inline mode, with specifiers left as they are, the emitted code is
/// the source.
pub proof fn law_inline_code_is_source(specifier: Seq<char>, source: Seq<char>, opts: EmitOptions)
    requires
        source.len() <= usize::MAX,
        opts.css_extraction_mode == CssExtractionMode::Inline,
        !opts.rewrite_specifiers,
    ensures
        transform_model(specifier, source, opts) matches Ok(out) ==> out.code == source,
{
    lemma_parse_wf(source);
    if let Ok(nodes) = parse_model(source) {
        lemma_walk(source, nodes, opts);
        if let Ok(st) = walk_from(source, nodes, opts, 0, empty_state()) {
            if st.rewrites.len() > 0 {
                assert(crate::walk_laws::rewrite_fits(source, nodes, opts, st.rewrites[0]));
            }
            assert(st.rewrites =~= Seq::empty());
            lemma_emit_identity(source, nodes);
        }
    }
}

/// A module without imports and style templates comes out as it went in:
/// the emitted code is the source, and so it parses to the same tree.
pub proof fn law_pass_through_round_trip(
    specifier: Seq<char>,
    source: Seq<char>,
    opts: EmitOptions,
)
    requires
        source.len() <= usize::MAX,
    ensures
        transform_model(specifier, source, opts) matches Ok(out) ==> (out.deps.len() == 0 ==> {
            &&& out.css is None
            &&& out.code == source
            &&& parse_model(out.code) == parse_model(source)
        }),
{
    lemma_parse_wf(source);
    if let Ok(nodes) = parse_model(source) {
        lemma_walk(source, nodes, opts);
        if let Ok(st) = walk_from(source, nodes, opts, 0, empty_state()) {
            if st.deps.len() == 0 {
                assert(st.rewrites =~= Seq::empty());
                lemma_emit_identity(source, nodes);
            }
        }
    }
}

/// The emitted code is the source with each rewrite that the walk decided
/// put in place of the text that its nodes cover; everything else is kept
/// character for character.
pub proof fn law_code_is_source_with_rewrites(
    specifier: Seq<char>,
    source: Seq<char>,
    opts: EmitOptions,
)
    requires
        source.len() <= usize::MAX,
    ensures
        transform_model(specifier, source, opts) matches Ok(out) ==> out.code == spliced(
            source,
            parse_model(source)->Ok_0,
            walk_from(source, parse_model(source)->Ok_0, opts, 0, empty_state())->Ok_0.rewrites,
            0,
            0,
        ),
{
    lemma_parse_wf(source);
    if let Ok(nodes) = parse_model(source) {
        lemma_walk(source, nodes, opts);
        if let Ok(st) = walk_from(source, nodes, opts, 0, empty_state()) {
            lemma_emit_model_splices(source, nodes, st.rewrites);
        }
    }
}

/// The emitted code can be read again, and the tree it yields has the
/// structure of the rewritten tree: its pieces and brackets are in order,
/// and node for node it has the kinds of the source tree, with one string
/// literal in place of each literal that was put into normal form and one
/// word in place of each style template that was lifted.
pub proof fn law_emitted_code_parses(specifier: Seq<char>, source: Seq<char>, opts: EmitOptions)
    requires
        source.len() <= usize::MAX,
    ensures
        transform_model(specifier, source, opts) matches Ok(out) ==> (out.code.len() <= usize::MAX
            ==> tree_model(out.code) is Ok && kinds(tree_model(out.code)->Ok_0)
            == rewritten_kinds(
            parse_model(source)->Ok_0,
            walk_from(source, parse_model(source)->Ok_0, opts, 0, empty_state())->Ok_0.rewrites,
            0,
            0,
        )),
{
    lemma_parse_wf(source);
    if let Ok(nodes) = parse_model(source) {
        lemma_walk(source, nodes, opts);
        if let Ok(st) = walk_from(source, nodes, opts, 0, empty_state()) {
            lemma_emit_model_splices(source, nodes, st.rewrites);
            let code = emit_model(source, nodes, st.rewrites).code;
            if code.len() <= usize::MAX {
                lemma_code_parses(source, nodes, opts, st.rewrites, code);
            }
        }
    }
}

/// The position table behind the source map is anchored in the emitted
/// code and in the source: every entry is the line and column at which a
/// piece of the code starts, tied to the line and column at which its node
/// starts in the source, and the entries advance strictly through both.
pub proof fn law_position_table_is_anchored(source: Seq<char>, opts: EmitOptions)
    requires
        source.len() <= usize::MAX,
    ensures
        parse_model(source) matches Ok(nodes) ==> (walk_from(
            source,
            nodes,
            opts,
            0,
            empty_state(),
        ) matches Ok(st) ==> anchored(
            emit_model(source, nodes, st.rewrites).code,
            source,
            emit_model(source, nodes, st.rewrites).mappings,
            anchors(nodes, st.rewrites),
        )),
{
    lemma_parse_wf(source);
    if let Ok(nodes) = parse_model(source) {
        lemma_walk(source, nodes, opts);
        if let Ok(st) = walk_from(source, nodes, opts, 0, empty_state()) {
            lemma_mappings_anchored(source, nodes, st.rewrites);
        }
    }
}

/// What holds of every output, in one: the records agree with the source
/// and stand in document order, the optional parts are present exactly
/// when they are due, a module that is not rewritten comes out as it went
/// in, and the pieces and brackets of the code are in order.
pub open spec fn output_ok(source: Seq<char>, opts: EmitOptions, out: TransformOutputView) -> bool {
    &&& forall|k: int| 0 <= k < out.deps.len() ==> dependency_ok(source, #[trigger] out.deps[k])
    &&& forall|a: int, b: int|
        0 <= a < b < out.deps.len() ==> (#[trigger] out.deps[a]).span.start
            < (#[trigger] out.deps[b]).span.start
    &&& out.css matches Some(css) ==> {
        &&& css.len() > 0
        &&& forall|k: int|
            0 <= k < css.len() ==> css_ok(source, #[trigger] css[k]) && css[k].id == css_id(
                k as nat,
            )
        &&& forall|a: int, b: int|
            0 <= a < b < css.len() ==> (#[trigger] css[a]).span.start < (#[trigger] css[b]).span.start
    }
    &&& out.map is Some <==> opts.produce_source_map
    &&& out.css is None <==> forall|d: int|
        0 <= d < out.deps.len() ==> (#[trigger] out.deps[d]).kind != ImportKind::Css
    &&& out.deps.len() == 0 ==> out.code == source
    &&& opts.css_extraction_mode == CssExtractionMode::Inline && !opts.rewrite_specifiers
        ==> out.code == source
    &&& out.code.len() <= usize::MAX ==> tree_model(out.code) is Ok
}

/// Every output satisfies `output_ok`.
pub proof fn law_output_ok(specifier: Seq<char>, source: Seq<char>, opts: EmitOptions)
    requires
        source.len() <= usize::MAX,
    ensures
        transform_model(specifier, source, opts) matches Ok(out) ==> output_ok(source, opts, out),
{
    law_document_order(specifier, source, opts);
    law_spans_valid(specifier, source, opts);
    law_style_identifiers(specifier, source, opts);
    law_presence(specifier, source, opts);
    law_pass_through_round_trip(specifier, source, opts);
    law_emitted_code_parses(specifier, source, opts);
    if opts.css_extraction_mode == CssExtractionMode::Inline && !opts.rewrite_specifiers {
        law_inline_code_is_source(specifier, source, opts);
    }
}

/// An error names a place in the source: a parse error an offset with its
/// line and column, a transpile error a span.
pub proof fn law_errors_point_into_source(
    specifier: Seq<char>,
    source: Seq<char>,
    opts: EmitOptions,
)
    requires
        source.len() <= usize::MAX,
    ensures
        match transform_model(specifier, source, opts) {
            Err(TransformError::Parse(e)) => e.offset <= source.len() && e.line == line_at(
                source,
                e.offset as int,
            ) && e.column == column_at(source, e.offset as int),
            Err(TransformError::Transpile(e)) => e.span.within(source),
            _ => true,
        },
{
    lemma_parse_wf(source);
    if let Ok(nodes) = parse_model(source) {
        lemma_walk(source, nodes, opts);
    }
}

} // verus!
