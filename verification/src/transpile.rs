//! Walk and emission of a parsed module, as one step.

use crate::ast_walker::{rewrite_views, state_of, walk, walk_from, WalkState};
use crate::emit::{emit, emit_model};
use crate::error::TranspileError;
use crate::module::AlefComponentModule;
use crate::options::EmitOptions;
use crate::resolve::Resolver;
use crate::source_map::{source_map, source_map_model};
use crate::text::string_of;
use crate::walk_laws::empty_state;
use vstd::prelude::*;

verus! {

/// What transpiling a module yields.
pub ghost struct Transpiled {
    /// The records of the walk.
    pub state: WalkState,
    /// The emitted code.
    pub code: Seq<char>,
    /// The source map, where one was asked for.
    pub map: Option<Seq<char>>,
}

/// The characters of an optional string.
pub open spec fn text_view(text: Option<String>) -> Option<Seq<char>> {
    match text {
        Some(s) => Some(s@),
        None => None,
    }
}

/// Walks the tree `nodes` of `src` with an empty registry and emits it.
/// The source map is present exactly when the options ask for it.
pub open spec fn transpile_model(
    specifier: Seq<char>,
    src: Seq<char>,
    nodes: Seq<crate::module::Node>,
    opts: EmitOptions,
) -> Result<Transpiled, TranspileError> {
    match walk_from(src, nodes, opts, 0, empty_state()) {
        Err(e) => Err(e),
        Ok(state) => {
            let out = emit_model(src, nodes, state.rewrites);
            Ok(
                Transpiled {
                    state,
                    code: out.code,
                    map: if opts.produce_source_map {
                        Some(source_map_model(specifier, out.mappings))
                    } else {
                        None
                    },
                },
            )
        },
    }
}

impl AlefComponentModule {
    /// Walks the module, filling `resolver`, and emits its code and, where
    /// the options ask for one, its source map.
    ///
    /// The registry is that of this one compilation and starts empty. On
    /// failure nothing is emitted, and the registry is to be dropped.
    pub fn transpile(&self, resolver: &mut Resolver, opts: &EmitOptions) -> (r: Result<
        (String, Option<String>),
        TranspileError,
    >)
        requires
            self.wf(),
            old(resolver).deps().len() == 0,
            old(resolver).templates().len() == 0,
        ensures
            match r {
                Ok(out) => {
                    &&& transpile_model(self.specifier@, self.source@, self.nodes@, *opts) matches Ok(
                        t,
                    )
                    &&& t.code == out.0@
                    &&& t.map == text_view(out.1)
                    &&& t.state.deps == final(resolver).deps()
                    &&& t.state.css == final(resolver).templates()
                    &&& out.0@.len() <= usize::MAX
                },
                Err(e) => transpile_model(self.specifier@, self.source@, self.nodes@, *opts)
                    == Err::<Transpiled, TranspileError>(e),
            },
    {
        proof {
            assert(old(resolver).deps() =~= Seq::empty());
            assert(old(resolver).templates() =~= Seq::empty());
            assert(rewrite_views(Seq::empty()) =~= Seq::empty());
            assert(state_of(*old(resolver), Seq::empty()) == empty_state());
        }
        let rewrites = match walk(self, opts, resolver) {
            Ok(rewrites) => rewrites,
            Err(e) => {
                return Err(e);
            },
        };
        let (code, mappings) = emit(self, &rewrites);
        assert(code.len() == code@.len());
        let map = if opts.produce_source_map {
            let text = source_map(&self.specifier, &mappings);
            Some(string_of(&text))
        } else {
            None
        };
        Ok((string_of(&code), map))
    }
}

} // verus!
