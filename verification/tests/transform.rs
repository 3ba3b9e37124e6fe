use alef_compiler::error::{
    ConfigurationError, OptionField, ParseErrorKind, TransformError, TranspileErrorKind,
};
use alef_compiler::options::{
    CssExtractionMode, EmitOptions, ModuleFormat, OptionEntry, OptionValue,
};
use alef_compiler::resolve::ImportKind;
use alef_compiler::{transform, transform_sync};

fn options(map: bool, mode: CssExtractionMode, rewrite: bool) -> EmitOptions {
    EmitOptions {
        produce_source_map: map,
        module_output_format: ModuleFormat::Esm,
        css_extraction_mode: mode,
        rewrite_specifiers: rewrite,
    }
}

fn inline() -> EmitOptions {
    options(false, CssExtractionMode::Inline, false)
}

fn lifted() -> EmitOptions {
    options(false, CssExtractionMode::Lifted, false)
}

fn flag(key: &str, value: bool) -> OptionEntry {
    OptionEntry { key: key.to_string(), value: OptionValue::Flag(value) }
}

fn text(key: &str, value: &str) -> OptionEntry {
    OptionEntry { key: key.to_string(), value: OptionValue::Text(value.to_string()) }
}

fn slice(source: &str, start: usize, end: usize) -> String {
    source.chars().skip(start).take(end - start).collect()
}

#[test]
fn static_import_yields_one_descriptor() {
    let source = "import x from \"./a.ts\";";
    let out = transform("/app.tsx", source, &inline()).unwrap();
    assert_eq!(out.deps.len(), 1);
    assert_eq!(out.deps[0].specifier, "./a.ts");
    assert_eq!(out.deps[0].resolved, "./a.js");
    assert_eq!(out.deps[0].kind, ImportKind::Static);
    assert_eq!(out.deps[0].span.start, 14);
    assert_eq!(out.deps[0].span.end, 22);
    assert_eq!(out.deps[0].span.line, 0);
    assert_eq!(out.deps[0].span.column, 14);
    assert!(out.css.is_none());
    assert!(out.map.is_none());
    assert_eq!(out.code, source);
}

#[test]
fn lifted_style_template_is_replaced_by_its_identifier() {
    let source = "const s = css`color: red;`;";
    let out = transform("/app.tsx", source, &lifted()).unwrap();
    let css = out.css.unwrap();
    assert_eq!(css.len(), 1);
    assert_eq!(css[0].text, "color: red;");
    assert_eq!(css[0].id, "__css_0");
    assert_eq!(css[0].span.start, 10);
    assert_eq!(css[0].span.end, 26);
    assert!(css[0].exprs.is_empty());
    assert_eq!(out.code, "const s = __css_0;");
    assert!(!out.code.contains("color: red;"));
    assert_eq!(out.deps.len(), 1);
    assert_eq!(out.deps[0].kind, ImportKind::Css);
    assert_eq!(out.deps[0].specifier, "__css_0");
    assert_eq!(out.deps[0].resolved, "__css_0");
    assert_eq!(out.deps[0].span, css[0].span);
}

#[test]
fn inline_style_template_is_recorded_and_kept() {
    let source = "const s = css`color: red;`;";
    let out = transform("/app.tsx", source, &inline()).unwrap();
    let css = out.css.unwrap();
    assert_eq!(css.len(), 1);
    assert_eq!(css[0].text, "color: red;");
    assert_eq!(css[0].id, "__css_0");
    assert_eq!(out.code, source);
}

#[test]
fn dynamic_import_with_literal_yields_dynamic_descriptor() {
    let source = "const m = import(\"./b.ts\");";
    let out = transform("/app.tsx", source, &inline()).unwrap();
    assert_eq!(out.deps.len(), 1);
    assert_eq!(out.deps[0].kind, ImportKind::Dynamic);
    assert_eq!(out.deps[0].specifier, "./b.ts");
    assert_eq!(out.deps[0].resolved, "./b.js");
    assert_eq!(slice(source, out.deps[0].span.start, out.deps[0].span.end), "\"./b.ts\"");
}

#[test]
fn dynamic_import_with_variable_yields_nothing() {
    let source = "const m = import(someVariable);";
    let out = transform("/app.tsx", source, &inline()).unwrap();
    assert_eq!(out.deps.len(), 0);
    assert!(out.css.is_none());
    assert_eq!(out.code, source);
}

#[test]
fn dynamic_import_with_computed_argument_yields_nothing() {
    let out = transform("/app.tsx", "import(\"./a\" + b); import(`./c`);", &inline()).unwrap();
    assert_eq!(out.deps.len(), 0);
}

#[test]
fn payload_without_required_field_is_a_configuration_error() {
    let payload = vec![flag("produceSourceMap", true), text("moduleOutputFormat", "esm")];
    let r = transform_sync("/app.tsx", "import x from \"./a.ts\";", &payload);
    assert_eq!(
        r.err(),
        Some(TransformError::Configuration(ConfigurationError::Missing(
            OptionField::CssExtractionMode
        )))
    );
}

#[test]
fn configuration_fails_before_the_source() {
    let payload = vec![text("moduleOutputFormat", "esm")];
    let r = transform_sync("/app.tsx", "const s = \"unterminated", &payload);
    assert_eq!(
        r.err(),
        Some(TransformError::Configuration(ConfigurationError::Missing(
            OptionField::ProduceSourceMap
        )))
    );
}

#[test]
fn invalid_source_is_a_parse_error_with_position() {
    let source = "const a = 1;\nconst s = \"abc\nconst b = 2;";
    let r = transform("/app.tsx", source, &inline());
    match r {
        Err(TransformError::Parse(e)) => {
            assert_eq!(e.kind, ParseErrorKind::UnterminatedString);
            assert_eq!(e.offset, 23);
            assert_eq!(e.line, 1);
            assert_eq!(e.column, 10);
            assert_eq!(e.message(), "unterminated string literal at line 2, column 11");
        }
        other => panic!("expected a parse error, got {:?}", other),
    }
}

#[test]
fn valid_payload_compiles() {
    let payload = vec![
        text("cssExtractionMode", "lifted"),
        flag("produceSourceMap", true),
        text("moduleOutputFormat", "other"),
    ];
    let out = transform_sync("/app.tsx", "a = css`x`", &payload).unwrap();
    assert_eq!(out.code, "a = __css_0");
    assert!(out.map.is_some());
    assert_eq!(out.css.unwrap()[0].text, "x");
}

#[test]
fn repeated_calls_agree() {
    let source = "import a from './a.tsx';\nexport * from \"b\";\nconst s = css`a ${x} b`;\n";
    let opts = options(true, CssExtractionMode::Lifted, true);
    let first = transform("/app.tsx", source, &opts).unwrap();
    let second = transform("/app.tsx", source, &opts).unwrap();
    assert_eq!(first.code, second.code);
    assert_eq!(first.map, second.map);
    assert_eq!(first.deps.len(), second.deps.len());
    for (a, b) in first.deps.iter().zip(second.deps.iter()) {
        assert_eq!(a.specifier, b.specifier);
        assert_eq!(a.resolved, b.resolved);
        assert_eq!(a.kind, b.kind);
        assert_eq!(a.span, b.span);
    }
    let (x, y) = (first.css.unwrap(), second.css.unwrap());
    assert_eq!(x.len(), y.len());
    assert_eq!(x[0].id, y[0].id);
    assert_eq!(x[0].text, y[0].text);
    assert_eq!(x[0].span, y[0].span);
    assert_eq!(x[0].exprs, y[0].exprs);
}

#[test]
fn dependencies_come_in_document_order() {
    let source = "import a from \"a\";\nconst b = import('b');\nexport { c } from \"c\";\nimport \"d\";\nexport * as e from 'e';\nimport a from \"a\";\n";
    let out = transform("/app.tsx", source, &inline()).unwrap();
    let names: Vec<&str> = out.deps.iter().map(|d| d.specifier.as_str()).collect();
    assert_eq!(names, vec!["a", "b", "c", "d", "e", "a"]);
    let kinds: Vec<ImportKind> = out.deps.iter().map(|d| d.kind).collect();
    assert_eq!(
        kinds,
        vec![
            ImportKind::Static,
            ImportKind::Dynamic,
            ImportKind::Static,
            ImportKind::Static,
            ImportKind::Static,
            ImportKind::Static
        ]
    );
    for pair in out.deps.windows(2) {
        assert!(pair[0].span.start < pair[1].span.start);
    }
}

#[test]
fn spans_slice_to_the_literal_or_the_template() {
    let source = "import a from \"./a.ts\";\nlet s = css`x ${y} z`;\nimport('../b.jsx');\n";
    let out = transform("/app.tsx", source, &inline()).unwrap();
    let count = source.chars().count();
    assert_eq!(out.deps.len(), 3);
    for d in out.deps.iter() {
        assert!(d.span.start <= d.span.end && d.span.end <= count);
        let covered = slice(source, d.span.start, d.span.end);
        match d.kind {
            ImportKind::Css => {
                assert!(covered.starts_with("css`"));
                assert!(covered.ends_with('`'));
            }
            _ => {
                let quote = covered.chars().next().unwrap();
                assert!(quote == '"' || quote == '\'');
                assert_eq!(covered, format!("{}{}{}", quote, d.specifier, quote));
            }
        }
    }
    let css = out.css.unwrap();
    assert_eq!(slice(source, css[0].span.start, css[0].span.end), "css`x ${y} z`");
    assert_eq!(css[0].span.line, 1);
    assert_eq!(css[0].span.column, 8);
}

#[test]
fn source_map_is_absent_unless_asked_for() {
    let source = "let a = 1;";
    let without = transform("/app.tsx", source, &options(false, CssExtractionMode::Lifted, true));
    assert!(without.unwrap().map.is_none());
    let with = transform("/app.tsx", source, &options(true, CssExtractionMode::Lifted, true));
    assert!(with.unwrap().map.is_some());
}

#[test]
fn pass_through_module_round_trips() {
    let source = "// a comment\nfunction f(a, b) {\n  return [a, b].map((x) => `<${x}>`);\n}\n/* done */\n";
    let out = transform("/app.tsx", source, &lifted()).unwrap();
    assert_eq!(out.deps.len(), 0);
    assert!(out.css.is_none());
    assert_eq!(out.code, source);
    let again = transform("/app.tsx", &out.code, &lifted()).unwrap();
    assert_eq!(again.code, source);
    let first = alef_compiler::module::AlefComponentModule::parse("/app.tsx", source).unwrap();
    let second = alef_compiler::module::AlefComponentModule::parse("/app.tsx", &out.code).unwrap();
    assert_eq!(first.nodes, second.nodes);
}

#[test]
fn import_without_source_is_a_parse_error() {
    let r = transform("/app.tsx", "let a;\n  import x;", &inline());
    match r {
        Err(TransformError::Parse(e)) => {
            assert_eq!(e.kind, ParseErrorKind::MalformedImport);
            assert_eq!(e.offset, 9);
            assert_eq!(e.line, 1);
            assert_eq!(e.column, 2);
            assert_eq!(e.message(), "import without a module source at line 2, column 3");
        }
        other => panic!("expected a parse error, got {:?}", other),
    }
}

#[test]
fn import_alias_passes_through() {
    let source = "let a;\n  import x = require(\"y\");\nimport type T = require('z');";
    let out = transform("/app.tsx", source, &lifted()).unwrap();
    assert_eq!(out.code, source);
    assert_eq!(out.deps.len(), 0);
}

#[test]
fn export_without_source_is_a_parse_error() {
    let r = transform("/app.tsx", "export * as a;", &inline());
    match r {
        Err(TransformError::Parse(e)) => {
            assert_eq!(e.kind, ParseErrorKind::MalformedExport);
            assert_eq!(e.offset, 0);
            assert_eq!(e.line, 0);
            assert_eq!(e.column, 0);
        }
        other => panic!("expected a parse error, got {:?}", other),
    }
    let r = transform("/app.tsx", "export { a } from b;", &inline());
    assert!(matches!(
        r,
        Err(TransformError::Parse(e)) if e.kind == ParseErrorKind::MalformedExport
    ));
}

#[test]
fn declaration_without_binding_is_a_parse_error() {
    let source = "const a = 1;\nconst = ;\n";
    let payload = vec![
        flag("produceSourceMap", false),
        text("moduleOutputFormat", "esm"),
        text("cssExtractionMode", "lifted"),
    ];
    match transform_sync("./app.tsx", source, &payload) {
        Err(TransformError::Parse(e)) => {
            assert_eq!(e.kind, ParseErrorKind::MissingBinding);
            assert_eq!(e.offset, 13);
            assert_eq!(e.line, 1);
            assert_eq!(e.column, 0);
            assert_eq!(e.message(), "declaration without a binding at line 2, column 1");
        }
        other => panic!("expected a parse error, got {:?}", other),
    }
    for bad in ["let;", "var", "for (const of x) {}\nlet = 1", "const 1 = 2;", "var (a)"] {
        assert!(matches!(
            transform("/app.tsx", bad, &inline()),
            Err(TransformError::Parse(e)) if e.kind == ParseErrorKind::MissingBinding
        ));
    }
    for good in [
        "const a = 1, b = 2;",
        "let { a, b } = c; var [d] = e;",
        "const x = [1, 2] as const;",
        "const o = { const: 1, let: 2 }; o.var = 3;",
        "for (const k of ks) {}",
        "function f<const T>(x: T) {}",
    ] {
        assert_eq!(transform("/app.tsx", good, &inline()).unwrap().code, good);
    }
}

#[test]
fn markup_text_is_not_code() {
    let source = "<p>import(\"x\")</p>;";
    let out = transform("/app.tsx", source, &lifted()).unwrap();
    assert_eq!(out.deps.len(), 0);
    assert!(out.css.is_none());
    assert_eq!(out.code, source);
    let source = "const e = <div title=\"import('a')\">css`x` import 'b' {import(\"c\")}</div>;";
    let out = transform("/app.tsx", source, &lifted()).unwrap();
    let names: Vec<&str> = out.deps.iter().map(|d| d.specifier.as_str()).collect();
    assert_eq!(names, vec!["c"]);
    assert_eq!(out.deps[0].kind, ImportKind::Dynamic);
    assert!(out.css.is_none());
    assert_eq!(out.code, source);
}

#[test]
fn markup_with_quotes_round_trips() {
    for source in [
        "<p>don't</p>;",
        "const a = <>it's \"so\" </>;",
        "const a = <b.c d:e='f'>don't</ b.c >;",
        "return (\n  <ul class='a' data-x=\"b\">\n    <li>one / two</li>\n    <br />\n  </ul>\n);",
        "x = a < b ? <A b={c > d} /> : <B>{`t ${u}`}</B>;",
        "const f = <T,>(x: T) => x; const g = <T extends U>(x: T) => x < 1;",
        "f<T>(a); if (a < b && c > d) { e = a << b; }",
        "x = m.default / 2 + a.of < b ? c.in : d?.new / e.return;",
        "for (i = 0; i < n; i++) { t += a[i] / 2 < b(i) / 3 ? 1 : 0; }",
    ] {
        let out = transform("/app.tsx", source, &lifted()).unwrap();
        assert_eq!(out.deps.len(), 0);
        assert!(out.css.is_none());
        assert_eq!(out.code, source);
        let first = alef_compiler::module::AlefComponentModule::parse("/app.tsx", source).unwrap();
        let second =
            alef_compiler::module::AlefComponentModule::parse("/app.tsx", &out.code).unwrap();
        assert_eq!(first.nodes, second.nodes);
    }
}

#[test]
fn regular_expressions_are_not_code() {
    let source = "const r = /[\"'`/]import('a')/g; const q = a / b / c; import(\"x\");\nx = y++ / 2; s.replace(/\\//, '');";
    let out = transform("/app.tsx", source, &lifted()).unwrap();
    let names: Vec<&str> = out.deps.iter().map(|d| d.specifier.as_str()).collect();
    assert_eq!(names, vec!["x"]);
    assert_eq!(out.code, source);
    let r = transform("/app.tsx", "a = /b\nc/", &lifted());
    assert!(matches!(
        r,
        Err(TransformError::Parse(e)) if e.kind == ParseErrorKind::UnterminatedRegex
            && e.offset == 4
    ));
}

#[test]
fn unterminated_element_is_a_parse_error() {
    let r = transform("/app.tsx", "a;\nb = <p>text", &lifted());
    match r {
        Err(TransformError::Parse(e)) => {
            assert_eq!(e.kind, ParseErrorKind::UnterminatedElement);
            assert_eq!(e.offset, 9);
            assert_eq!(e.line, 1);
            assert_eq!(e.column, 6);
            assert_eq!(e.message(), "unterminated element at line 2, column 7");
        }
        other => panic!("expected a parse error, got {:?}", other),
    }
    let r = transform("/app.tsx", "b = <p class=", &lifted());
    assert!(matches!(
        r,
        Err(TransformError::Parse(e)) if e.kind == ParseErrorKind::UnterminatedElement
            && e.offset == 4
    ));
}

#[test]
fn style_template_after_whitespace_is_recorded() {
    let source = "css `a`;";
    let out = transform("/app.tsx", source, &inline()).unwrap();
    let css = out.css.unwrap();
    assert_eq!(css.len(), 1);
    assert_eq!(css[0].text, "a");
    assert_eq!(css[0].span.start, 0);
    assert_eq!(css[0].span.end, 7);
    assert_eq!(out.code, source);
    let out = transform("/app.tsx", "s = css /* t */\n `a ${b} c`;", &lifted()).unwrap();
    assert_eq!(out.code, "s = __css_0;");
    let css = out.css.unwrap();
    assert_eq!(css[0].text, "a ${0} c");
    assert_eq!(css[0].exprs.len(), 1);
}

#[test]
fn dynamic_import_with_more_arguments_is_recorded() {
    let source = "import(\"a\", b); import('c',); import(\"d\" , { with: {} });";
    let out = transform("/app.tsx", source, &inline()).unwrap();
    let names: Vec<&str> = out.deps.iter().map(|d| d.specifier.as_str()).collect();
    assert_eq!(names, vec!["a", "c", "d"]);
    for d in out.deps.iter() {
        assert_eq!(d.kind, ImportKind::Dynamic);
    }
}

#[test]
fn nested_interpolation_cannot_be_lifted() {
    let source = "const s = css`a ${f(x)} b`;";
    let r = transform("/app.tsx", source, &lifted());
    match r {
        Err(TransformError::Transpile(e)) => {
            assert_eq!(e.kind, TranspileErrorKind::UnsupportedInterpolation);
            assert_eq!(e.span.start, 19);
            assert_eq!(e.span.end, 20);
        }
        other => panic!("expected a transpile error, got {:?}", other),
    }
    let kept = transform("/app.tsx", source, &inline()).unwrap();
    assert_eq!(kept.code, source);
    assert_eq!(kept.css.unwrap()[0].text, "a ${0} b");
}

#[test]
fn component_module_is_compiled_whole() {
    let source = [
        "import React, { useState } from \"react\";",
        "import { Button } from \"./components/Button.tsx\";",
        "import type { Props } from \"../types.ts\";",
        "import \"./global.css\";",
        "",
        "const title = css`",
        "  color: ${color};",
        "  font-size: 12px;",
        "`;",
        "",
        "export default function App(props: Props) {",
        "  const [n, setN] = useState(0);",
        "  const lazy = () => import(\"./Lazy.tsx\");",
        "  return <div className={title}><Button onClick={() => setN(n + 1)}>{n}</Button></div>;",
        "}",
        "",
        "export { helper } from \"./helper.ts\";",
        "export type { Helper } from './helper.ts';",
        "export * from \"https://esm.sh/lib.ts\";",
        "",
    ]
    .join("\n");
    let expected = [
        "import React, { useState } from \"react\";",
        "import { Button } from \"./components/Button.js\";",
        "import type { Props } from \"../types.js\";",
        "import \"./global.css\";",
        "",
        "const title = __css_0;",
        "",
        "export default function App(props: Props) {",
        "  const [n, setN] = useState(0);",
        "  const lazy = () => import(\"./Lazy.js\");",
        "  return <div className={title}><Button onClick={() => setN(n + 1)}>{n}</Button></div>;",
        "}",
        "",
        "export { helper } from \"./helper.js\";",
        "export type { Helper } from './helper.js';",
        "export * from \"https://esm.sh/lib.ts\";",
        "",
    ]
    .join("\n");
    let out = transform("/pages/app.tsx", &source, &options(true, CssExtractionMode::Lifted, true))
        .unwrap();
    assert_eq!(out.code, expected);
    let names: Vec<&str> = out.deps.iter().map(|d| d.specifier.as_str()).collect();
    assert_eq!(
        names,
        vec![
            "react",
            "./components/Button.tsx",
            "../types.ts",
            "./global.css",
            "__css_0",
            "./Lazy.tsx",
            "./helper.ts",
            "./helper.ts",
            "https://esm.sh/lib.ts"
        ]
    );
    let kinds: Vec<ImportKind> = out.deps.iter().map(|d| d.kind).collect();
    assert_eq!(
        kinds,
        vec![
            ImportKind::Static,
            ImportKind::Static,
            ImportKind::Static,
            ImportKind::Static,
            ImportKind::Css,
            ImportKind::Dynamic,
            ImportKind::Static,
            ImportKind::Static,
            ImportKind::Static
        ]
    );
    let css = out.css.unwrap();
    assert_eq!(css.len(), 1);
    assert_eq!(css[0].text, "\n  color: ${0};\n  font-size: 12px;\n");
    assert_eq!(css[0].span.line, 5);
    assert_eq!(css[0].span.column, 14);
    assert_eq!(css[0].exprs.len(), 1);
    assert_eq!(slice(&source, css[0].exprs[0].start, css[0].exprs[0].end), "color");
    assert_eq!(css[0].exprs[0].line, 6);
    assert_eq!(css[0].exprs[0].column, 11);
    assert!(out.map.unwrap().starts_with(
        "{\"version\":3,\"sources\":[\"/pages/app.tsx\"],\"names\":[],\"mappings\":\"AAAA,OAAO"
    ));
    let kept = transform("/pages/app.tsx", &source, &inline()).unwrap();
    assert_eq!(kept.code, source);
    assert_eq!(kept.deps.len(), 9);
}

#[test]
fn errors_describe_themselves() {
    let payload = vec![flag("produceSourceMap", true), flag("moduleOutputFormat", true)];
    let e = transform_sync("/app.tsx", "", &payload).err().unwrap();
    assert_eq!(e.message(), "invalid value of option moduleOutputFormat");
    let e = transform_sync("/app.tsx", "", &Vec::new()).err().unwrap();
    assert_eq!(e.message(), "missing option produceSourceMap");
    let e = transform_sync("/app.tsx", "", &vec![flag("a", true), flag("b", true)]).err().unwrap();
    assert_eq!(e.message(), "unknown option at index 0");
    assert_eq!(ConfigurationError::Unknown(12).message(), "unknown option at index 12");
    assert_eq!(
        ConfigurationError::Missing(OptionField::RewriteSpecifiers).message(),
        "missing option rewriteSpecifiers"
    );
    assert_eq!(
        ConfigurationError::Invalid(OptionField::CssExtractionMode).message(),
        "invalid value of option cssExtractionMode"
    );
    let e = transform("/app.tsx", "a\n b)", &inline()).err().unwrap();
    assert_eq!(e.message(), "unexpected closing bracket at line 2, column 3");
    let e = transform("/app.tsx", "css`${[]}`", &lifted()).err().unwrap();
    assert_eq!(
        e.message(),
        "interpolation cannot be lifted out of the style template at line 1, column 7"
    );
    let e = transform("/app.tsx", "export * from;", &lifted()).err().unwrap();
    assert_eq!(e.message(), "export without a module source at line 1, column 1");
}

#[test]
fn template_that_runs_into_a_word_cannot_be_lifted() {
    let source = "a = css`x`b";
    let r = transform("/app.tsx", source, &lifted());
    match r {
        Err(TransformError::Transpile(e)) => {
            assert_eq!(e.kind, TranspileErrorKind::TemplateRunsIntoWord);
            assert_eq!(e.span.start, 4);
            assert_eq!(e.span.end, 10);
            assert_eq!(e.message(), "style template runs into the word after it at line 1, column 5");
        }
        other => panic!("expected a transpile error, got {:?}", other),
    }
    assert_eq!(transform("/app.tsx", source, &inline()).unwrap().code, source);
    assert_eq!(transform("/app.tsx", "a = css`x`", &lifted()).unwrap().code, "a = __css_0");
    assert_eq!(transform("/app.tsx", "a = css`x`.b", &lifted()).unwrap().code, "a = __css_0.b");
    assert_eq!(transform("/app.tsx", "css`x` b", &lifted()).unwrap().code, "__css_0 b");
    assert!(transform("/app.tsx", "css`x`css`y`", &lifted()).is_err());
    assert!(transform("/app.tsx", "css`x`\u{e9}", &lifted()).is_err());
}
