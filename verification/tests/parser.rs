use alef_compiler::error::ParseErrorKind;
use alef_compiler::lexer::{Delim, NodeKind};
use alef_compiler::module::AlefComponentModule;

fn kinds(source: &str) -> Vec<NodeKind> {
    let module = AlefComponentModule::parse("/m.ts", source).unwrap();
    module.nodes.iter().map(|n| n.kind).collect()
}

fn failure(source: &str) -> (ParseErrorKind, usize, usize, usize) {
    let e = AlefComponentModule::parse("/m.ts", source).err().unwrap();
    (e.kind, e.offset, e.line, e.column)
}

#[test]
fn empty_source_has_no_nodes() {
    let module = AlefComponentModule::parse("/m.ts", "").unwrap();
    assert!(module.nodes.is_empty());
    assert!(module.source.is_empty());
    assert_eq!(module.specifier, "/m.ts".chars().collect::<Vec<char>>());
}

#[test]
fn words_and_punctuation_are_told_apart() {
    assert_eq!(
        kinds("import a, * as b from 'x';"),
        vec![
            NodeKind::Import,
            NodeKind::Whitespace,
            NodeKind::Word,
            NodeKind::Comma,
            NodeKind::Whitespace,
            NodeKind::Star,
            NodeKind::Whitespace,
            NodeKind::As,
            NodeKind::Whitespace,
            NodeKind::Word,
            NodeKind::Whitespace,
            NodeKind::From,
            NodeKind::Whitespace,
            NodeKind::Str,
            NodeKind::Punct,
        ]
    );
    assert_eq!(kinds("type types"), vec![NodeKind::Type, NodeKind::Whitespace, NodeKind::Word]);
    assert_eq!(
        kinds("1 0x1f a1 1a"),
        vec![
            NodeKind::Number,
            NodeKind::Whitespace,
            NodeKind::Number,
            NodeKind::Whitespace,
            NodeKind::Word,
            NodeKind::Whitespace,
            NodeKind::Number,
        ]
    );
    assert_eq!(
        kinds("export css.imports $x _y caf\u{e9} 12"),
        vec![
            NodeKind::Export,
            NodeKind::Whitespace,
            NodeKind::CssTag,
            NodeKind::Dot,
            NodeKind::Word,
            NodeKind::Whitespace,
            NodeKind::Word,
            NodeKind::Whitespace,
            NodeKind::Word,
            NodeKind::Whitespace,
            NodeKind::Word,
            NodeKind::Whitespace,
            NodeKind::Number,
        ]
    );
}

#[test]
fn comments_are_single_nodes() {
    assert_eq!(
        kinds("a // import \"x\"\n/* import('y') */b"),
        vec![
            NodeKind::Word,
            NodeKind::Whitespace,
            NodeKind::LineComment,
            NodeKind::Whitespace,
            NodeKind::BlockComment,
            NodeKind::Word,
        ]
    );
}

#[test]
fn nodes_tile_the_source() {
    let source = "let a = f(b[0], {c: `x${d}y`}); // end\n";
    let module = AlefComponentModule::parse("/m.ts", source).unwrap();
    let mut at = 0;
    let mut rebuilt = String::new();
    for node in module.nodes.iter() {
        assert_eq!(node.span.start, at);
        assert!(node.span.start < node.span.end);
        rebuilt.extend(module.source[node.span.start..node.span.end].iter());
        at = node.span.end;
    }
    assert_eq!(at, source.chars().count());
    assert_eq!(rebuilt, source);
}

#[test]
fn brackets_are_linked_to_their_partners() {
    let module = AlefComponentModule::parse("/m.ts", "f(a[1]){`x${y}`}").unwrap();
    let kinds: Vec<NodeKind> = module.nodes.iter().map(|n| n.kind).collect();
    assert_eq!(
        kinds,
        vec![
            NodeKind::Word,
            NodeKind::Open(Delim::Paren),
            NodeKind::Word,
            NodeKind::Open(Delim::Bracket),
            NodeKind::Number,
            NodeKind::Close(Delim::Bracket),
            NodeKind::Close(Delim::Paren),
            NodeKind::Open(Delim::Brace),
            NodeKind::Open(Delim::Template),
            NodeKind::Chunk,
            NodeKind::Open(Delim::Interpolation),
            NodeKind::Word,
            NodeKind::Close(Delim::Interpolation),
            NodeKind::Close(Delim::Template),
            NodeKind::Close(Delim::Brace),
        ]
    );
    let links: Vec<usize> = module.nodes.iter().map(|n| n.link).collect();
    assert_eq!(links, vec![0, 6, 2, 5, 4, 3, 1, 14, 13, 9, 12, 11, 10, 8, 7]);
}

#[test]
fn lines_and_columns_follow_line_feeds() {
    let module = AlefComponentModule::parse("/m.ts", "a\n  b\n\nc").unwrap();
    let words: Vec<(usize, usize, usize)> = module
        .nodes
        .iter()
        .filter(|n| n.kind == NodeKind::Word)
        .map(|n| (n.span.start, n.span.line, n.span.column))
        .collect();
    assert_eq!(words, vec![(0, 0, 0), (4, 1, 2), (7, 3, 0)]);
}

#[test]
fn offsets_count_characters() {
    let module = AlefComponentModule::parse("/m.ts", "\"\u{e9}\u{1f600}\" x").unwrap();
    assert_eq!(module.nodes[0].kind, NodeKind::Str);
    assert_eq!(module.nodes[0].span.end, 4);
    assert_eq!(module.nodes[2].span.start, 5);
    assert_eq!(module.nodes[2].span.column, 5);
}

#[test]
fn escapes_do_not_end_strings_or_templates() {
    assert_eq!(kinds("'a\\'b'"), vec![NodeKind::Str]);
    assert_eq!(kinds("\"a\\\\\""), vec![NodeKind::Str]);
    assert_eq!(kinds("'a\\\nb'"), vec![NodeKind::Str]);
    assert_eq!(
        kinds("`a\\`b\\${c}`"),
        vec![
            NodeKind::Open(Delim::Template),
            NodeKind::Chunk,
            NodeKind::Close(Delim::Template)
        ]
    );
    assert_eq!(
        kinds("`$a{}`"),
        vec![
            NodeKind::Open(Delim::Template),
            NodeKind::Chunk,
            NodeKind::Close(Delim::Template)
        ]
    );
}

#[test]
fn unterminated_string_is_reported_at_its_quote() {
    assert_eq!(failure("a = 'b"), (ParseErrorKind::UnterminatedString, 4, 0, 4));
    assert_eq!(failure("a = 'b\n'"), (ParseErrorKind::UnterminatedString, 4, 0, 4));
    assert_eq!(failure("\n\"b\\"), (ParseErrorKind::UnterminatedString, 1, 1, 0));
}

#[test]
fn unterminated_comment_is_reported_at_its_start() {
    assert_eq!(failure("a /* b *"), (ParseErrorKind::UnterminatedComment, 2, 0, 2));
    assert_eq!(failure("/*/"), (ParseErrorKind::UnterminatedComment, 0, 0, 0));
}

#[test]
fn unterminated_template_is_reported_at_its_backtick() {
    assert_eq!(failure("a\n = `b ${c} d"), (ParseErrorKind::UnterminatedTemplate, 5, 1, 3));
    assert_eq!(failure("`a\\"), (ParseErrorKind::UnterminatedTemplate, 0, 0, 0));
}

#[test]
fn unexpected_close_is_reported_at_the_bracket() {
    assert_eq!(failure("a)"), (ParseErrorKind::UnexpectedClose, 1, 0, 1));
    assert_eq!(failure("f(a]"), (ParseErrorKind::UnexpectedClose, 3, 0, 3));
    assert_eq!(failure("{\n(}"), (ParseErrorKind::UnexpectedClose, 3, 1, 1));
}

#[test]
fn unclosed_bracket_is_reported_at_the_innermost_open_one() {
    assert_eq!(failure("f(a, [b"), (ParseErrorKind::UnclosedDelimiter, 5, 0, 5));
    assert_eq!(failure("`${a"), (ParseErrorKind::UnclosedDelimiter, 1, 0, 1));
}

#[test]
fn parse_error_messages_name_kind_and_position() {
    let e = AlefComponentModule::parse("/m.ts", "a /* b").err().unwrap();
    assert_eq!(e.message(), "unterminated block comment at line 1, column 3");
    let e = AlefComponentModule::parse("/m.ts", "`a").err().unwrap();
    assert_eq!(e.message(), "unterminated template literal at line 1, column 1");
    let e = AlefComponentModule::parse("/m.ts", "\n\n  ]").err().unwrap();
    assert_eq!(e.message(), "unexpected closing bracket at line 3, column 3");
    let e = AlefComponentModule::parse("/m.ts", "(").err().unwrap();
    assert_eq!(e.message(), "bracket is never closed at line 1, column 1");
}

#[test]
fn keywords_and_operators_have_their_kinds() {
    assert_eq!(
        kinds("const a=b++:return typeof"),
        vec![
            NodeKind::Decl,
            NodeKind::Whitespace,
            NodeKind::Word,
            NodeKind::Equals,
            NodeKind::Word,
            NodeKind::Step,
            NodeKind::Colon,
            NodeKind::Prefix,
            NodeKind::Whitespace,
            NodeKind::Prefix,
        ]
    );
    assert_eq!(
        kinds("a/b;c=/d/g/e"),
        vec![
            NodeKind::Word,
            NodeKind::Punct,
            NodeKind::Word,
            NodeKind::Punct,
            NodeKind::Word,
            NodeKind::Equals,
            NodeKind::Regex,
            NodeKind::Punct,
            NodeKind::Word,
        ]
    );
}

#[test]
fn markup_is_told_from_comparison() {
    assert_eq!(
        kinds("a<b>c"),
        vec![NodeKind::Word, NodeKind::Punct, NodeKind::Word, NodeKind::Punct, NodeKind::Word]
    );
    let module = AlefComponentModule::parse("/m.tsx", "(<a b='c' d={e}>f{g}<h/></a>)").unwrap();
    let kinds: Vec<NodeKind> = module.nodes.iter().map(|n| n.kind).collect();
    assert_eq!(
        kinds,
        vec![
            NodeKind::Open(Delim::Paren),
            NodeKind::Open(Delim::Tag),
            NodeKind::Name,
            NodeKind::Whitespace,
            NodeKind::Name,
            NodeKind::Equals,
            NodeKind::Str,
            NodeKind::Whitespace,
            NodeKind::Name,
            NodeKind::Equals,
            NodeKind::Open(Delim::Brace),
            NodeKind::Word,
            NodeKind::Close(Delim::Brace),
            NodeKind::Open(Delim::Children),
            NodeKind::Text,
            NodeKind::Open(Delim::Brace),
            NodeKind::Word,
            NodeKind::Close(Delim::Brace),
            NodeKind::Open(Delim::Tag),
            NodeKind::Name,
            NodeKind::Close(Delim::Tag),
            NodeKind::Close(Delim::Children),
            NodeKind::Close(Delim::Tag),
            NodeKind::Close(Delim::Paren),
        ]
    );
    let links: Vec<usize> = module.nodes.iter().map(|n| n.link).collect();
    assert_eq!(
        links,
        vec![23, 22, 2, 3, 4, 5, 6, 7, 8, 9, 12, 11, 10, 21, 14, 17, 16, 15, 20, 19, 18, 13, 1, 0]
    );
}
