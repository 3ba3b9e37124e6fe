use alef_compiler::ast_walker::walk;
use alef_compiler::classify::{classify_node, Visit};
use alef_compiler::error::ParseErrorKind;
use alef_compiler::module::AlefComponentModule;
use alef_compiler::options::{CssExtractionMode, EmitOptions, ModuleFormat};
use alef_compiler::resolve::{
    resolve_specifier, specifier_class, CSSTemplate, DependencyDescriptor, ImportKind, Resolver,
    SpecifierClass,
};
use alef_compiler::span::Span;

fn options(mode: CssExtractionMode, rewrite: bool) -> EmitOptions {
    EmitOptions {
        produce_source_map: false,
        module_output_format: ModuleFormat::Esm,
        css_extraction_mode: mode,
        rewrite_specifiers: rewrite,
    }
}

fn visits(source: &str) -> Vec<Visit> {
    let module = AlefComponentModule::parse("/m.ts", source).unwrap();
    (0..module.nodes.len())
        .map(|i| classify_node(&module.nodes, i))
        .filter(|v| *v != Visit::Pass)
        .collect()
}

fn normal(raw: &str) -> String {
    let chars: Vec<char> = raw.chars().collect();
    resolve_specifier(&chars, 0, chars.len()).into_iter().collect()
}

fn class(raw: &str) -> SpecifierClass {
    let chars: Vec<char> = raw.chars().collect();
    specifier_class(&chars, 0, chars.len())
}

#[test]
fn import_forms_are_classified() {
    assert_eq!(visits("import 'a'"), vec![Visit::Import { source: 2 }]);
    assert_eq!(visits("import a from 'a'"), vec![Visit::Import { source: 6 }]);
    assert_eq!(visits("import{a,b as c}from'a'"), vec![Visit::Import { source: 11 }]);
    assert_eq!(visits("import type { T } from 'a'"), vec![Visit::Import { source: 12 }]);
    assert_eq!(visits("import from from 'a'"), vec![Visit::Import { source: 6 }]);
    assert_eq!(visits("import /* c */ a /* d */ from /* e */ 'a'"), vec![Visit::Import {
        source: 12
    }]);
    assert_eq!(visits("import('a')"), vec![Visit::DynamicImport { source: 2 }]);
    assert_eq!(visits("import ( /* c */ 'a' )"), vec![Visit::DynamicImport { source: 6 }]);
    assert_eq!(visits("import.meta.url"), vec![]);
    assert_eq!(visits("import"), vec![]);
    assert_eq!(visits("({ import: 1 })"), vec![]);
    assert_eq!(visits("import [a] from 'a'"), vec![]);
    assert_eq!(visits("a.import('b')"), vec![]);
    assert_eq!(visits("import('a', b)"), vec![Visit::DynamicImport { source: 2 }]);
    assert_eq!(visits("import('a',)"), vec![Visit::DynamicImport { source: 2 }]);
    assert_eq!(visits("import('a' + b)"), vec![]);
    assert_eq!(visits("import(a)"), vec![]);
    assert_eq!(visits("import a = require('b')"), vec![]);
}

fn refusal(source: &str) -> (ParseErrorKind, usize) {
    let e = AlefComponentModule::parse("/m.ts", source).err().unwrap();
    (e.kind, e.offset)
}

#[test]
fn malformed_imports_are_refused() {
    let bad = ParseErrorKind::MalformedImport;
    assert_eq!(refusal("import a"), (bad, 0));
    assert_eq!(refusal("a;\nimport a 'a'"), (bad, 3));
    assert_eq!(refusal("import a 'a'; import b from 'b';"), (bad, 0));
    assert_eq!(refusal("import a from b"), (bad, 0));
    assert_eq!(refusal("import * as a from (b)"), (bad, 0));
    assert_eq!(refusal("import { a } 'a'"), (bad, 0));
}

#[test]
fn export_forms_are_classified() {
    assert_eq!(visits("export * from 'a'"), vec![Visit::ReExport { source: 6 }]);
    assert_eq!(visits("export * as b from 'a'"), vec![Visit::ReExport { source: 10 }]);
    assert_eq!(visits("export { a, b } from 'a'"), vec![Visit::ReExport { source: 13 }]);
    assert_eq!(visits("export type { T } from 'a'"), vec![Visit::ReExport { source: 12 }]);
    assert_eq!(visits("export type * from 'a'"), vec![Visit::ReExport { source: 8 }]);
    assert_eq!(visits("export type T = 'a'"), vec![]);
    assert_eq!(visits("export * as 'b c' from 'a'"), vec![Visit::ReExport { source: 10 }]);
    assert_eq!(visits("export { a, b }; from; 'a'"), vec![]);
    assert_eq!(visits("export const a = 'a'"), vec![]);
    assert_eq!(visits("export default from"), vec![]);
    assert_eq!(visits("export"), vec![]);
    assert_eq!(visits("a.export * from 'a'"), vec![]);
    let bad = ParseErrorKind::MalformedExport;
    assert_eq!(refusal("export * 'a'"), (bad, 0));
    assert_eq!(refusal("a; export { a } from"), (bad, 3));
}

#[test]
fn style_tags_are_classified() {
    assert_eq!(visits("css`a`"), vec![Visit::Style { open: 1, close: 3 }]);
    assert_eq!(visits("css``"), vec![Visit::Style { open: 1, close: 2 }]);
    assert_eq!(visits("css `a`"), vec![Visit::Style { open: 2, close: 4 }]);
    assert_eq!(visits("css /* b */\n`a`"), vec![Visit::Style { open: 4, close: 6 }]);
    assert_eq!(visits("css + `a`"), vec![]);
    assert_eq!(visits("a.css`a`"), vec![]);
    assert_eq!(visits("css(a)"), vec![]);
    assert_eq!(visits("scss`a`"), vec![]);
}

#[test]
fn specifiers_are_classified() {
    assert_eq!(class("./a"), SpecifierClass::Relative);
    assert_eq!(class("../a"), SpecifierClass::Relative);
    assert_eq!(class("/a/b"), SpecifierClass::Absolute);
    assert_eq!(class("https://a.b/c.ts"), SpecifierClass::Remote);
    assert_eq!(class("react"), SpecifierClass::Bare);
    assert_eq!(class(".a"), SpecifierClass::Bare);
    assert_eq!(class("a:/b"), SpecifierClass::Bare);
    assert_eq!(class(""), SpecifierClass::Bare);
}

#[test]
fn paths_with_script_extensions_are_normalised() {
    assert_eq!(normal("./a.ts"), "./a.js");
    assert_eq!(normal("../a/b.tsx"), "../a/b.js");
    assert_eq!(normal("/a.jsx"), "/a.js");
    assert_eq!(normal("./a.js"), "./a.js");
    assert_eq!(normal("./a.css"), "./a.css");
    assert_eq!(normal("./a"), "./a");
    assert_eq!(normal("./.ts"), "./.js");
    assert_eq!(normal("a.ts"), "a.ts");
    assert_eq!(normal("https://a.b/c.ts"), "https://a.b/c.ts");
    assert_eq!(normal("react"), "react");
    assert_eq!(normal(""), "");
}

#[test]
fn registry_keeps_every_record_in_order() {
    let span = Span { start: 0, end: 3, line: 0, column: 0 };
    let mut resolver = Resolver::new();
    assert!(resolver.dependencies().is_empty());
    assert!(resolver.css_templates().is_empty());
    for name in ["a", "b", "a"] {
        resolver.record_dependency(DependencyDescriptor {
            specifier: name.to_string(),
            resolved: name.to_string(),
            kind: ImportKind::Static,
            span,
        });
    }
    resolver.record_css_template(CSSTemplate {
        id: "__css_0".to_string(),
        text: "a".to_string(),
        span,
        exprs: Vec::new(),
    });
    let names: Vec<&str> = resolver.dependencies().iter().map(|d| d.specifier.as_str()).collect();
    assert_eq!(names, vec!["a", "b", "a"]);
    assert_eq!(resolver.css_templates().len(), 1);
    assert_eq!(resolver.css_templates()[0].text, "a");
}

#[test]
fn walk_appends_to_the_registry() {
    let module = AlefComponentModule::parse("/m.ts", "import 'b'; css`c`").unwrap();
    let mut resolver = Resolver::new();
    resolver.record_dependency(DependencyDescriptor {
        specifier: "a".to_string(),
        resolved: "a".to_string(),
        kind: ImportKind::Static,
        span: Span { start: 0, end: 3, line: 0, column: 0 },
    });
    let rewrites = walk(&module, &options(CssExtractionMode::Lifted, true), &mut resolver).unwrap();
    let names: Vec<&str> = resolver.dep_graph.iter().map(|d| d.specifier.as_str()).collect();
    assert_eq!(names, vec!["a", "b", "__css_0"]);
    assert_eq!(rewrites.len(), 1);
    assert_eq!(rewrites[0].first, 5);
    assert_eq!(rewrites[0].last, 8);
    assert_eq!(rewrites[0].text, "__css_0".chars().collect::<Vec<char>>());
}

#[test]
fn specifiers_are_rewritten_on_request() {
    let source = "import a from './a.tsx';\nimport b from \"b.ts\";\nimport(\"/c.ts\");\nexport * from './d.js';\n";
    let module = AlefComponentModule::parse("/m.ts", source).unwrap();
    let mut resolver = Resolver::new();
    let out = module.transpile(&mut resolver, &options(CssExtractionMode::Inline, true)).unwrap();
    assert_eq!(
        out.0,
        "import a from './a.js';\nimport b from \"b.ts\";\nimport(\"/c.js\");\nexport * from './d.js';\n"
    );
    assert_eq!(out.1, None);
    let raw: Vec<&str> = resolver.dep_graph.iter().map(|d| d.specifier.as_str()).collect();
    assert_eq!(raw, vec!["./a.tsx", "b.ts", "/c.ts", "./d.js"]);
    let resolved: Vec<&str> = resolver.dep_graph.iter().map(|d| d.resolved.as_str()).collect();
    assert_eq!(resolved, vec!["./a.js", "b.ts", "/c.js", "./d.js"]);
    let mut kept = Resolver::new();
    let same = module.transpile(&mut kept, &options(CssExtractionMode::Inline, false)).unwrap();
    assert_eq!(same.0, source);
}

#[test]
fn interpolations_become_numbered_markers() {
    let source = "css`a: ${x}; b: ${ y.z }; c: ${\"s\"}${w}`";
    let module = AlefComponentModule::parse("/m.ts", source).unwrap();
    let mut resolver = Resolver::new();
    let out = module.transpile(&mut resolver, &options(CssExtractionMode::Lifted, false)).unwrap();
    assert_eq!(out.0, "__css_0");
    let css = &resolver.css[0];
    assert_eq!(css.text, "a: ${0}; b: ${1}; c: ${2}${3}");
    let exprs: Vec<String> = css
        .exprs
        .iter()
        .map(|s| source.chars().skip(s.start).take(s.end - s.start).collect())
        .collect();
    assert_eq!(exprs, vec!["x", " y.z ", "\"s\"", "w"]);
}

#[test]
fn style_templates_are_numbered_in_order() {
    let source = "a = css`x`;\nb = css`y`;\nc = css``;";
    let module = AlefComponentModule::parse("/m.ts", source).unwrap();
    let mut resolver = Resolver::new();
    let out = module.transpile(&mut resolver, &options(CssExtractionMode::Lifted, false)).unwrap();
    assert_eq!(out.0, "a = __css_0;\nb = __css_1;\nc = __css_2;");
    let ids: Vec<&str> = resolver.css.iter().map(|c| c.id.as_str()).collect();
    assert_eq!(ids, vec!["__css_0", "__css_1", "__css_2"]);
    let texts: Vec<&str> = resolver.css.iter().map(|c| c.text.as_str()).collect();
    assert_eq!(texts, vec!["x", "y", ""]);
    for pair in resolver.css.windows(2) {
        assert!(pair[0].span.start < pair[1].span.start);
    }
}

#[test]
fn inline_walk_reaches_into_templates() {
    let source = "css`a ${ css`b` } ${ import('c') }`";
    let module = AlefComponentModule::parse("/m.ts", source).unwrap();
    let mut resolver = Resolver::new();
    let out = module.transpile(&mut resolver, &options(CssExtractionMode::Inline, false)).unwrap();
    assert_eq!(out.0, source);
    let names: Vec<&str> = resolver.dep_graph.iter().map(|d| d.specifier.as_str()).collect();
    assert_eq!(names, vec!["__css_0", "__css_1", "c"]);
    let texts: Vec<&str> = resolver.css.iter().map(|c| c.text.as_str()).collect();
    assert_eq!(texts, vec!["a ${0} ${1}", "b"]);
}

#[test]
fn imports_in_comments_and_strings_are_not_dependencies() {
    let source = "// import 'a'\n/* import('b') */\nconst s = \"import 'c'\";\nconst t = `import 'd'`;";
    let module = AlefComponentModule::parse("/m.ts", source).unwrap();
    let mut resolver = Resolver::new();
    module.transpile(&mut resolver, &options(CssExtractionMode::Lifted, true)).unwrap();
    assert!(resolver.dep_graph.is_empty());
    assert!(resolver.css.is_empty());
}
