//! Compiler core for single-file components: a module's source text is
//! parsed into a syntax tree, walked once to collect its dependencies and
//! style templates, and emitted again as code with an optional source map.

pub mod ast_walker;
pub mod classify;
pub mod emit;
pub mod error;
pub mod laws;
pub mod lexer;
pub mod locality;
pub mod map_laws;
pub mod module;
pub mod options;
pub mod relex;
pub mod reparse;
pub mod resolve;
pub mod source_map;
pub mod span;
pub mod text;
pub mod transpile;
pub mod walk_laws;

use crate::error::TransformError;
use crate::laws::{law_output_ok, output_ok};
use crate::module::{parse_model, tree_model, AlefComponentModule};
use crate::options::{entry_views, options_model, EmitOptions, OptionEntry, OptionEntryView};
use crate::resolve::{
    css_views, dependency_views, CSSTemplate, CssView, DependencyDescriptor, DependencyView,
    Resolver,
};
use crate::transpile::{text_view, transpile_model};
use vstd::prelude::*;

verus! {

/// The result of compiling one module.
#[derive(Debug)]
pub struct TransformOutput {
    /// The emitted code.
    pub code: String,
    /// The dependencies of the module, in document order.
    pub deps: Vec<DependencyDescriptor>,
    /// The style templates of the module, in document order; absent when
    /// the module has none.
    pub css: Option<Vec<CSSTemplate>>,
    /// The source map; absent unless the options ask for it.
    pub map: Option<String>,
}

/// The mathematical content of a [`TransformOutput`].
pub ghost struct TransformOutputView {
    pub code: Seq<char>,
    pub deps: Seq<DependencyView>,
    pub css: Option<Seq<CssView>>,
    pub map: Option<Seq<char>>,
}

impl View for TransformOutput {
    type V = TransformOutputView;

    open spec fn view(&self) -> TransformOutputView {
        TransformOutputView {
            code: self.code@,
            deps: dependency_views(self.deps@),
            css: match self.css {
                Some(list) => Some(css_views(list@)),
                None => None,
            },
            map: text_view(self.map),
        }
    }
}

/// What compiling `source`, known as `specifier`, yields under `opts`:
/// the module is parsed, walked and emitted; the first failure ends the
/// compilation.
pub open spec fn transform_model(specifier: Seq<char>, source: Seq<char>, opts: EmitOptions) -> Result<
    TransformOutputView,
    TransformError,
> {
    match parse_model(source) {
        Err(e) => Err(TransformError::Parse(e)),
        Ok(nodes) => match transpile_model(specifier, source, nodes, opts) {
            Err(e) => Err(TransformError::Transpile(e)),
            Ok(t) => Ok(
                TransformOutputView {
                    code: t.code,
                    deps: t.state.deps,
                    css: if t.state.css.len() == 0 {
                        None
                    } else {
                        Some(t.state.css)
                    },
                    map: t.map,
                },
            ),
        },
    }
}

/// What compiling yields when the options arrive as a payload: the
/// payload is validated before anything else.
pub open spec fn transform_sync_model(
    specifier: Seq<char>,
    source: Seq<char>,
    payload: Seq<OptionEntryView>,
) -> Result<TransformOutputView, TransformError> {
    match options_model(payload) {
        Err(e) => Err(TransformError::Configuration(e)),
        Ok(opts) => transform_model(specifier, source, opts),
    }
}

/// Compiles the module `source`, known as `specifier`, under `opts`.
///
/// The result is a function of the three arguments alone: it is the value
/// of `transform_model`, be it output or error. An output satisfies
/// `output_ok`, and the pieces and brackets of its code are in order.
pub fn transform(specifier: &str, source: &str, opts: &EmitOptions) -> (r: Result<
    TransformOutput,
    TransformError,
>)
    ensures
        match r {
            Ok(out) => transform_model(specifier@, source@, *opts) == Ok::<
                TransformOutputView,
                TransformError,
            >(out@) && output_ok(source@, *opts, out@) && tree_model(out@.code) is Ok,
            Err(e) => transform_model(specifier@, source@, *opts) == Err::<
                TransformOutputView,
                TransformError,
            >(e),
        },
{
    let module = match AlefComponentModule::parse(specifier, source) {
        Ok(module) => module,
        Err(e) => {
            return Err(TransformError::Parse(e));
        },
    };
    proof {
        assert(module.source@.len() <= usize::MAX);
        law_output_ok(specifier@, source@, *opts);
    }
    let mut resolver = Resolver::new();
    let (code, map) = match module.transpile(&mut resolver, opts) {
        Ok(pair) => pair,
        Err(e) => {
            return Err(TransformError::Transpile(e));
        },
    };
    let ghost templates = resolver.templates();
    let deps = resolver.dep_graph;
    let list = resolver.css;
    assert(css_views(list@) == templates);
    let css = if list.len() == 0 {
        None
    } else {
        Some(list)
    };
    Ok(TransformOutput { code, deps, css, map })
}

/// Compiles the module `source`, known as `specifier`, with the options
/// given as a payload of named values.
///
/// A payload that is not a valid set of options fails the call before the
/// source is looked at.
pub fn transform_sync(specifier: &str, source: &str, payload: &Vec<OptionEntry>) -> (r: Result<
    TransformOutput,
    TransformError,
>)
    ensures
        match r {
            Ok(out) => transform_sync_model(specifier@, source@, entry_views(payload@)) == Ok::<
                TransformOutputView,
                TransformError,
            >(out@) && options_model(entry_views(payload@)) is Ok && output_ok(
                source@,
                options_model(entry_views(payload@))->Ok_0,
                out@,
            ) && tree_model(out@.code) is Ok,
            Err(e) => transform_sync_model(specifier@, source@, entry_views(payload@)) == Err::<
                TransformOutputView,
                TransformError,
            >(e),
        },
{
    match EmitOptions::from_entries(payload) {
        Err(e) => Err(TransformError::Configuration(e)),
        Ok(opts) => transform(specifier, source, &opts),
    }
}

} // verus!
