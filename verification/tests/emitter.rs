use alef_compiler::ast_walker::{walk, Rewrite};
use alef_compiler::lexer::NodeKind;
use alef_compiler::resolve::Resolver;
use alef_compiler::emit::{emit, Mapping};
use alef_compiler::module::AlefComponentModule;
use alef_compiler::options::{CssExtractionMode, EmitOptions, ModuleFormat};
use alef_compiler::source_map::{encode_mappings, source_map};
use alef_compiler::text::{advance, chars_of, decimal_chars, string_of};
use alef_compiler::transform;

fn at(gl: usize, gc: usize, sl: usize, sc: usize) -> Mapping {
    Mapping { generated_line: gl, generated_column: gc, source_line: sl, source_column: sc }
}

fn encoded(mappings: &[Mapping]) -> String {
    encode_mappings(&mappings.to_vec()).into_iter().collect()
}

fn mapped(mode: CssExtractionMode) -> EmitOptions {
    EmitOptions {
        produce_source_map: true,
        module_output_format: ModuleFormat::Esm,
        css_extraction_mode: mode,
        rewrite_specifiers: false,
    }
}

#[test]
fn emit_without_rewrites_gives_the_source() {
    let source = "let a = [1, 2];\n// done\n";
    let module = AlefComponentModule::parse("/m.ts", source).unwrap();
    let (code, mappings) = emit(&module, &Vec::new());
    assert_eq!(code.into_iter().collect::<String>(), source);
    assert_eq!(
        mappings,
        vec![
            at(0, 0, 0, 0),
            at(0, 4, 0, 4),
            at(0, 6, 0, 6),
            at(0, 8, 0, 8),
            at(0, 9, 0, 9),
            at(0, 10, 0, 10),
            at(0, 12, 0, 12),
            at(0, 13, 0, 13),
            at(0, 14, 0, 14),
        ]
    );
}

#[test]
fn emit_replaces_rewritten_nodes() {
    let module = AlefComponentModule::parse("/m.ts", "a\n(b c)\nd").unwrap();
    let rewrites = vec![Rewrite { first: 2, last: 6, text: "xy".chars().collect() }];
    let (code, mappings) = emit(&module, &rewrites);
    assert_eq!(code.into_iter().collect::<String>(), "a\nxy\nd");
    assert_eq!(mappings, vec![at(0, 0, 0, 0), at(1, 0, 1, 0), at(2, 0, 2, 0)]);
}

#[test]
fn mappings_follow_the_shift_of_a_rewrite() {
    let source = "a = css`x\ny`; b";
    let out = transform("/m.ts", source, &mapped(CssExtractionMode::Lifted)).unwrap();
    assert_eq!(out.code, "a = __css_0; b");
    assert_eq!(
        out.map.unwrap(),
        "{\"version\":3,\"sources\":[\"/m.ts\"],\"names\":[],\"mappings\":\"AAAA,EAAE,EAAE,OACF,EAAE\"}"
    );
}

#[test]
fn source_map_of_two_lines() {
    let out = transform("m.js", "a\nb", &mapped(CssExtractionMode::Inline)).unwrap();
    assert_eq!(
        out.map.unwrap(),
        "{\"version\":3,\"sources\":[\"m.js\"],\"names\":[],\"mappings\":\"AAAA;AACA\"}"
    );
}

#[test]
fn source_map_of_empty_module() {
    let out = transform("m.js", "", &mapped(CssExtractionMode::Inline)).unwrap();
    assert_eq!(out.code, "");
    assert_eq!(
        out.map.unwrap(),
        "{\"version\":3,\"sources\":[\"m.js\"],\"names\":[],\"mappings\":\"\"}"
    );
}

#[test]
fn specifier_is_escaped_in_the_source_map() {
    let name: Vec<char> = "a\"b\\c\nd\te\r\u{1}\u{1f}\u{e9}".chars().collect();
    let text: String = source_map(&name, &Vec::new()).into_iter().collect();
    assert_eq!(
        text,
        "{\"version\":3,\"sources\":[\"a\\\"b\\\\c\\nd\\te\\r\\u0001\\u001f\u{e9}\"],\"names\":[],\"mappings\":\"\"}"
    );
}

#[test]
fn vlq_of_small_and_large_differences() {
    assert_eq!(encoded(&[at(0, 0, 0, 0)]), "AAAA");
    assert_eq!(encoded(&[at(0, 1, 0, 0)]), "CAAA");
    assert_eq!(encoded(&[at(0, 15, 0, 0)]), "eAAA");
    assert_eq!(encoded(&[at(0, 16, 0, 0)]), "gBAAA");
    assert_eq!(encoded(&[at(0, 511, 0, 0)]), "+fAAA");
    assert_eq!(encoded(&[at(0, 512, 0, 0)]), "ggBAAA");
    assert_eq!(encoded(&[at(0, 0, 26, 31)]), "AA0B+B");
    assert_eq!(encoded(&[at(0, 0, 1000, 0)]), "AAw+BA");
}

#[test]
fn vlq_of_negative_differences() {
    assert_eq!(encoded(&[at(0, 0, 5, 7), at(0, 3, 4, 0)]), "AAKO,GADP");
    assert_eq!(encoded(&[at(0, 0, 16, 0), at(0, 1, 0, 0)]), "AAgBA,CAhBA");
}

#[test]
fn lines_are_separated_by_semicolons() {
    assert_eq!(encoded(&[]), "");
    assert_eq!(encoded(&[at(2, 4, 0, 0)]), ";;IAAA");
    assert_eq!(encoded(&[at(0, 4, 0, 4), at(0, 6, 0, 6), at(3, 2, 1, 2)]), "IAAI,EAAE;;;EACJ");
    assert_eq!(encoded(&[at(1, 5, 0, 0), at(2, 5, 0, 0)]), ";KAAA;KAAA");
}

#[test]
fn decimal_notation() {
    assert_eq!(decimal_chars(0).into_iter().collect::<String>(), "0");
    assert_eq!(decimal_chars(7).into_iter().collect::<String>(), "7");
    assert_eq!(decimal_chars(10).into_iter().collect::<String>(), "10");
    assert_eq!(decimal_chars(1205).into_iter().collect::<String>(), "1205");
    assert_eq!(
        decimal_chars(u128::MAX).into_iter().collect::<String>(),
        "340282366920938463463374607431768211455"
    );
}

#[test]
fn text_conversions_keep_every_character() {
    let text = "a\u{e9}\u{1f600}\n";
    assert_eq!(chars_of(text), vec!['a', '\u{e9}', '\u{1f600}', '\n']);
    assert_eq!(string_of(&chars_of(text)), text);
    assert_eq!(string_of(&Vec::new()), "");
}

#[test]
fn positions_advance_over_line_feeds() {
    let text: Vec<char> = "ab\ncd\n\ne".chars().collect();
    assert_eq!(advance(&text, 0, 2, 0, 0), (0, 2));
    assert_eq!(advance(&text, 0, 3, 0, 0), (1, 0));
    assert_eq!(advance(&text, 3, 8, 1, 0), (3, 1));
    assert_eq!(advance(&text, 4, 4, 1, 1), (1, 1));
}

fn rewritten_kinds(source: &str, opts: &EmitOptions) -> Vec<NodeKind> {
    let module = AlefComponentModule::parse("/m.ts", source).unwrap();
    let rewrites = walk(&module, opts, &mut Resolver::new()).unwrap();
    let mut kinds = Vec::new();
    let mut next = 0;
    let mut i = 0;
    while i < module.nodes.len() {
        if next < rewrites.len() && rewrites[next].first == i {
            kinds.push(if module.nodes[i].kind == NodeKind::Str {
                NodeKind::Str
            } else {
                NodeKind::Word
            });
            i = rewrites[next].last + 1;
            next += 1;
        } else {
            kinds.push(module.nodes[i].kind);
            i += 1;
        }
    }
    kinds
}

#[test]
fn emitted_code_parses_to_the_rewritten_tree() {
    let opts = EmitOptions {
        produce_source_map: false,
        module_output_format: ModuleFormat::Esm,
        css_extraction_mode: CssExtractionMode::Lifted,
        rewrite_specifiers: true,
    };
    let sources = [
        "import a from './a.ts';\nconst s = css`x ${y} z`;\nexport * from \"../b.tsx\";",
        "f(css`a`, import('/c.jsx'), `t ${ import(\"./d\\\\.ts\") } u`)",
        "css``/css`a`\n//css`b`\nimport'./e\\.tsx'",
        "let a = [1, 2];",
        "",
    ];
    for source in sources {
        let out = transform("/m.ts", source, &opts).unwrap();
        let again = AlefComponentModule::parse("/m.ts", &out.code).unwrap();
        let kinds: Vec<NodeKind> = again.nodes.iter().map(|n| n.kind).collect();
        assert_eq!(kinds, rewritten_kinds(source, &opts));
    }
    let out = transform("/m.ts", sources[1], &opts).unwrap();
    assert_eq!(out.code, "f(__css_0, import('/c.js'), `t ${ import(\"./d\\\\.js\") } u`)");
    let out = transform("/m.ts", sources[2], &opts).unwrap();
    assert_eq!(out.code, "__css_0/__css_1\n//css`b`\nimport'./e\\.js'");
}

#[test]
fn columns_count_utf16_code_units() {
    let module = AlefComponentModule::parse("/m.ts", "a = '\u{1f600}\u{e9}' + b\n\u{1f600}(c)").unwrap();
    let (_, mappings) = emit(&module, &Vec::new());
    assert_eq!(
        mappings,
        vec![
            at(0, 0, 0, 0),
            at(0, 2, 0, 2),
            at(0, 4, 0, 4),
            at(0, 10, 0, 10),
            at(0, 12, 0, 12),
            at(1, 0, 1, 0),
            at(1, 2, 1, 2),
            at(1, 3, 1, 3),
            at(1, 4, 1, 4),
        ]
    );
    let spans: Vec<(usize, usize)> =
        module.nodes.iter().map(|n| (n.span.start, n.span.column)).collect();
    assert_eq!(spans[8], (11, 11));
    assert_eq!(spans[10], (13, 0));
    assert_eq!(spans[11], (14, 1));
}

#[test]
fn spans_convert_to_byte_ranges() {
    let source = "const \u{e9} = '\u{1f600}'; import \"./\u{e4}.ts\";";
    let module = AlefComponentModule::parse("/m.ts", source).unwrap();
    let out = transform("/m.ts", source, &mapped(CssExtractionMode::Inline)).unwrap();
    assert_eq!(out.deps.len(), 1);
    let span = out.deps[0].span;
    assert_eq!((span.start, span.end), (22, 30));
    let (from, to) = span.byte_range(&module.source).unwrap();
    assert_eq!((from, to), (26, 35));
    assert_eq!(&source[from..to], "\"./\u{e4}.ts\"");
    assert_eq!(alef_compiler::text::byte_offset(&module.source, 0), Some(0));
    assert_eq!(
        alef_compiler::text::byte_offset(&module.source, module.source.len()),
        Some(source.len())
    );
}
