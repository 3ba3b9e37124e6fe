//! Telling apart the nodes that matter: import and export declarations,
//! calls of `import`, style templates, and the forms that the syntax does
//! not allow.

use crate::error::ParseErrorKind;
use crate::lexer::{Delim, NodeKind};
use crate::module::Node;
use vstd::prelude::*;

verus! {

/// What stands at a node.
#[derive(Clone, Copy, Debug, PartialEq, Eq, Structural)]
pub enum Visit {
    /// Nothing of interest: the node passes through.
    Pass,
    /// An import declaration; `source` is the index of the string literal
    /// that names the module.
    Import { source: usize },
    /// An export declaration that names a source module.
    ReExport { source: usize },
    /// A call `import("..", ..)` whose first argument is a string literal.
    DynamicImport { source: usize },
    /// The tag `css` in front of a template that starts at index `open`
    /// and ends at index `close`.
    Style { open: usize, close: usize },
    /// A form that the syntax does not allow.
    Malformed(ParseErrorKind),
}

/// The outcome of looking for the source of a declaration.
#[derive(Clone, Copy, Debug, PartialEq, Eq, Structural)]
pub enum Search {
    /// The string literal at this index names the source.
    Found(usize),
    /// The declaration binds a name with `=` and has no source.
    Alias,
    /// There is no source where one is due.
    Missing,
}

/// Index of the first node at or after `from` that is neither whitespace
/// nor comment; the number of nodes if there is none.
pub open spec fn skip_trivia(nodes: Seq<Node>, from: int) -> int
    decreases nodes.len() - from,
{
    if 0 <= from < nodes.len() && nodes[from].kind.is_trivia() {
        skip_trivia(nodes, from + 1)
    } else {
        from
    }
}

/// Index of the node that follows node `j` and, where `j` opens a group,
/// the whole group.
pub open spec fn after(nodes: Seq<Node>, j: int) -> int {
    if nodes[j].kind is Open && j < nodes[j].link < nodes.len() {
        nodes[j].link + 1
    } else {
        j + 1
    }
}

/// The source of a declaration clause that starts at node `j`. The clause
/// may hold words, `*`, `,`, groups in braces and names written as string
/// literals; the source is the first literal that follows the word `from`,
/// or the declaration's keyword where `primed` is set. A `=` makes the
/// declaration an alias. Anything else ends the search without a source.
pub open spec fn find_source(nodes: Seq<Node>, j: int, primed: bool) -> Search
    decreases nodes.len() - j,
{
    if j < 0 || j >= nodes.len() {
        Search::Missing
    } else {
        let kind = nodes[j].kind;
        if kind.is_trivia() {
            find_source(nodes, j + 1, primed)
        } else if kind == NodeKind::Str {
            if primed {
                Search::Found(j as usize)
            } else {
                find_source(nodes, j + 1, false)
            }
        } else if kind == NodeKind::Equals {
            Search::Alias
        } else if kind == NodeKind::From {
            find_source(nodes, j + 1, true)
        } else if kind.is_word() || kind == NodeKind::Star || kind == NodeKind::Comma {
            find_source(nodes, j + 1, false)
        } else if kind == NodeKind::Open(Delim::Brace) {
            find_source(nodes, after(nodes, j), false)
        } else {
            Search::Missing
        }
    }
}

/// Whether node `i` is the name of a member, as in `a.import`.
pub open spec fn is_member(nodes: Seq<Node>, i: int) -> bool {
    i > 0 && nodes[i - 1].kind == NodeKind::Dot
}

/// Whether the word `as` is the last node before node `i` that is neither
/// whitespace nor comment.
pub open spec fn follows_as(nodes: Seq<Node>, i: int) -> bool
    decreases i,
{
    if i <= 0 || i > nodes.len() {
        false
    } else if nodes[i - 1].kind.is_trivia() {
        follows_as(nodes, i - 1)
    } else {
        nodes[i - 1].kind == NodeKind::As
    }
}

/// Whether a declaration clause can start with a node of this kind.
pub open spec fn starts_clause(kind: NodeKind) -> bool {
    kind == NodeKind::Str || kind.is_word() || kind == NodeKind::Star || kind == NodeKind::Open(
        Delim::Brace,
    )
}

/// Whether what `const`, `let` or `var` declares can start with a node of
/// this kind: a name or a pattern. A colon makes the word a key.
pub open spec fn starts_binding(kind: NodeKind) -> bool {
    kind.is_word() || kind == NodeKind::Open(Delim::Brace) || kind == NodeKind::Open(
        Delim::Bracket,
    ) || kind == NodeKind::Colon
}

/// The keyword `import` at node `i`. Before a parenthesis it is a call,
/// which counts when its first argument is a string literal. Before a
/// string literal, a word, `*` or a brace it is a declaration, which names
/// its source or binds an alias with `=`. Before anything else it is a
/// meta-property or a name and passes.
pub open spec fn classify_import(nodes: Seq<Node>, i: int) -> Visit {
    let k = skip_trivia(nodes, i + 1);
    if k >= nodes.len() {
        Visit::Pass
    } else if nodes[k].kind == NodeKind::Open(Delim::Paren) {
        let a = skip_trivia(nodes, k + 1);
        let b = skip_trivia(nodes, a + 1);
        if a < nodes.len() && nodes[a].kind == NodeKind::Str && b < nodes.len() && (b
            == nodes[k].link || nodes[b].kind == NodeKind::Comma) {
            Visit::DynamicImport { source: a as usize }
        } else {
            Visit::Pass
        }
    } else if starts_clause(nodes[k].kind) {
        match find_source(nodes, k, true) {
            Search::Found(s) => Visit::Import { source: s },
            Search::Alias => Visit::Pass,
            Search::Missing => Visit::Malformed(ParseErrorKind::MalformedImport),
        }
    } else {
        Visit::Pass
    }
}

/// The export clause that follows the keyword `export` at node `i` and,
/// where there is one, the word `type`: with `*` it must name a source,
/// in braces it may, and every other export is local and passes.
pub open spec fn classify_export(nodes: Seq<Node>, i: int) -> Visit {
    let t = skip_trivia(nodes, i + 1);
    let k = if t < nodes.len() && nodes[t].kind == NodeKind::Type {
        skip_trivia(nodes, t + 1)
    } else {
        t
    };
    if k >= nodes.len() {
        Visit::Pass
    } else if nodes[k].kind == NodeKind::Star {
        match find_source(nodes, k + 1, false) {
            Search::Found(s) => Visit::ReExport { source: s },
            _ => Visit::Malformed(ParseErrorKind::MalformedExport),
        }
    } else if nodes[k].kind == NodeKind::Open(Delim::Brace) {
        let f = skip_trivia(nodes, after(nodes, k));
        if f < nodes.len() && nodes[f].kind == NodeKind::From {
            let g = skip_trivia(nodes, f + 1);
            if g < nodes.len() && nodes[g].kind == NodeKind::Str {
                Visit::ReExport { source: g as usize }
            } else {
                Visit::Malformed(ParseErrorKind::MalformedExport)
            }
        } else {
            Visit::Pass
        }
    } else {
        Visit::Pass
    }
}

/// One of `const`, `let` and `var` at node `i`: a name or a pattern must
/// follow, unless the word follows `as`.
pub open spec fn classify_declaration(nodes: Seq<Node>, i: int) -> Visit {
    let k = skip_trivia(nodes, i + 1);
    if follows_as(nodes, i) || (k < nodes.len() && starts_binding(nodes[k].kind)) {
        Visit::Pass
    } else {
        Visit::Malformed(ParseErrorKind::MissingBinding)
    }
}

/// The tag `css` at node `i`: it counts when a template follows it, with
/// nothing but whitespace and comments in between.
pub open spec fn classify_tag(nodes: Seq<Node>, i: int) -> Visit {
    let t = skip_trivia(nodes, i + 1);
    if t < nodes.len() && nodes[t].kind == NodeKind::Open(Delim::Template) {
        Visit::Style { open: t as usize, close: nodes[t].link }
    } else {
        Visit::Pass
    }
}

/// What stands at node `i`.
pub open spec fn classify(nodes: Seq<Node>, i: int) -> Visit {
    let kind = nodes[i].kind;
    if is_member(nodes, i) {
        Visit::Pass
    } else if kind == NodeKind::Import {
        classify_import(nodes, i)
    } else if kind == NodeKind::Export {
        classify_export(nodes, i)
    } else if kind == NodeKind::Decl {
        classify_declaration(nodes, i)
    } else if kind == NodeKind::CssTag {
        classify_tag(nodes, i)
    } else {
        Visit::Pass
    }
}

/// The first node at or after `i` at which a form stands that the syntax
/// does not allow, with the kind of the fault.
pub open spec fn first_malformed(nodes: Seq<Node>, i: int) -> Option<(int, ParseErrorKind)>
    decreases nodes.len() - i,
{
    if i < 0 || i >= nodes.len() {
        None
    } else {
        match classify(nodes, i) {
            Visit::Malformed(kind) => Some((i, kind)),
            _ => first_malformed(nodes, i + 1),
        }
    }
}

/// Where no malformed form is found, none stands at any node.
pub proof fn lemma_none_malformed(nodes: Seq<Node>, i: int, k: int)
    requires
        0 <= i <= k < nodes.len(),
        first_malformed(nodes, i) is None,
    ensures
        !(classify(nodes, k) is Malformed),
    decreases k - i,
{
    if i < k {
        lemma_none_malformed(nodes, i + 1, k);
    }
}

/// A malformed form that is found stands at a node.
pub proof fn lemma_first_malformed(nodes: Seq<Node>, i: int)
    requires
        0 <= i,
    ensures
        first_malformed(nodes, i) matches Some(b) ==> i <= b.0 < nodes.len(),
    decreases nodes.len() - i,
{
    if i < nodes.len() {
        lemma_first_malformed(nodes, i + 1);
    }
}

pub proof fn lemma_skip_trivia(nodes: Seq<Node>, from: int)
    requires
        0 <= from <= nodes.len(),
    ensures
        from <= skip_trivia(nodes, from) <= nodes.len(),
        skip_trivia(nodes, from) < nodes.len() ==> !nodes[skip_trivia(nodes, from)].kind.is_trivia(),
        forall|k: int| from <= k < skip_trivia(nodes, from) ==> (#[trigger] nodes[k]).kind.is_trivia(),
    decreases nodes.len() - from,
{
    if from < nodes.len() && nodes[from].kind.is_trivia() {
        lemma_skip_trivia(nodes, from + 1);
    }
}

/// A source that is found is a string literal at or after the start of the
/// search.
pub proof fn lemma_find_source(nodes: Seq<Node>, j: int, primed: bool)
    requires
        0 <= j,
        nodes.len() <= usize::MAX,
    ensures
        find_source(nodes, j, primed) matches Search::Found(s) ==> j <= s < nodes.len()
            && nodes[s as int].kind == NodeKind::Str,
    decreases nodes.len() - j,
{
    if j < nodes.len() {
        let kind = nodes[j].kind;
        if kind.is_trivia() {
            lemma_find_source(nodes, j + 1, primed);
        } else if kind == NodeKind::Str {
            if !primed {
                lemma_find_source(nodes, j + 1, false);
            }
        } else if kind == NodeKind::Equals {
        } else if kind == NodeKind::From {
            lemma_find_source(nodes, j + 1, true);
        } else if kind.is_word() || kind == NodeKind::Star || kind == NodeKind::Comma {
            lemma_find_source(nodes, j + 1, false);
        } else if kind == NodeKind::Open(Delim::Brace) {
            lemma_find_source(nodes, after(nodes, j), false);
        }
    }
}

/// The literal of a classified import lies after its keyword, and the
/// template of a style starts after its tag, with nothing but whitespace
/// and comments in between.
pub proof fn lemma_classify(nodes: Seq<Node>, i: int)
    requires
        0 <= i < nodes.len() <= usize::MAX,
    ensures
        match classify(nodes, i) {
            Visit::Import { source } => i < source < nodes.len() && nodes[source as int].kind
                == NodeKind::Str,
            Visit::ReExport { source } => i < source < nodes.len() && nodes[source as int].kind
                == NodeKind::Str,
            Visit::DynamicImport { source } => i < source < nodes.len()
                && nodes[source as int].kind == NodeKind::Str,
            Visit::Style { open, close } => nodes[i].kind == NodeKind::CssTag && i < open
                < nodes.len() && open == skip_trivia(nodes, i + 1) && nodes[open as int].kind
                == NodeKind::Open(Delim::Template) && close == nodes[open as int].link,
            _ => true,
        },
{
    lemma_skip_trivia(nodes, i + 1);
    let t = skip_trivia(nodes, i + 1);
    if t < nodes.len() {
        lemma_skip_trivia(nodes, t + 1);
        lemma_find_source(nodes, t, true);
        lemma_clause(nodes, t);
        let k = skip_trivia(nodes, t + 1);
        if k < nodes.len() {
            lemma_clause(nodes, k);
        }
    }
}

/// The source of an export clause that starts at node `k` lies after `k`.
proof fn lemma_clause(nodes: Seq<Node>, k: int)
    requires
        0 <= k < nodes.len() <= usize::MAX,
    ensures
        find_source(nodes, k + 1, false) matches Search::Found(s) ==> k < s < nodes.len()
            && nodes[s as int].kind == NodeKind::Str,
        skip_trivia(nodes, skip_trivia(nodes, after(nodes, k)) + 1) > k,
        skip_trivia(nodes, skip_trivia(nodes, after(nodes, k)) + 1) < nodes.len() ==> skip_trivia(
            nodes,
            after(nodes, k),
        ) < nodes.len(),
{
    lemma_find_source(nodes, k + 1, false);
    let f0 = after(nodes, k);
    lemma_skip_trivia(nodes, f0);
    let f = skip_trivia(nodes, f0);
    if f < nodes.len() {
        lemma_skip_trivia(nodes, f + 1);
    }
}

pub fn skip(nodes: &Vec<Node>, from: usize) -> (r: usize)
    requires
        from <= nodes.len(),
    ensures
        r == skip_trivia(nodes@, from as int),
        from <= r <= nodes.len(),
{
    let mut j: usize = from;
    while j < nodes.len() && nodes[j].kind.trivia()
        invariant
            from <= j <= nodes.len(),
            skip_trivia(nodes@, from as int) == skip_trivia(nodes@, j as int),
        decreases nodes.len() - j,
    {
        j += 1;
    }
    j
}

pub fn next_after(nodes: &Vec<Node>, j: usize) -> (r: usize)
    requires
        j < nodes.len(),
    ensures
        r == after(nodes@, j as int),
        j < r <= nodes.len(),
{
    let node = nodes[j];
    let opens = match node.kind {
        NodeKind::Open(_) => true,
        _ => false,
    };
    if opens && j < node.link && node.link < nodes.len() {
        node.link + 1
    } else {
        j + 1
    }
}

fn source_of(nodes: &Vec<Node>, start: usize, primed: bool) -> (r: Search)
    requires
        start <= nodes.len(),
    ensures
        r == find_source(nodes@, start as int, primed),
{
    let mut j: usize = start;
    let mut ready: bool = primed;
    while j < nodes.len()
        invariant
            start <= j <= nodes.len(),
            find_source(nodes@, start as int, primed) == find_source(nodes@, j as int, ready),
        decreases nodes.len() - j,
    {
        let kind = nodes[j].kind;
        if kind.trivia() {
            j += 1;
        } else if kind == NodeKind::Str {
            if ready {
                return Search::Found(j);
            }
            j += 1;
        } else if kind == NodeKind::Equals {
            return Search::Alias;
        } else if kind == NodeKind::From {
            ready = true;
            j += 1;
        } else if kind.word() || kind == NodeKind::Star || kind == NodeKind::Comma {
            ready = false;
            j += 1;
        } else if kind == NodeKind::Open(Delim::Brace) {
            ready = false;
            j = next_after(nodes, j);
        } else {
            return Search::Missing;
        }
    }
    Search::Missing
}

fn after_as(nodes: &Vec<Node>, i: usize) -> (r: bool)
    requires
        i <= nodes.len(),
    ensures
        r == follows_as(nodes@, i as int),
{
    let mut j: usize = i;
    while j > 0 && nodes[j - 1].kind.trivia()
        invariant
            j <= i <= nodes.len(),
            follows_as(nodes@, i as int) == follows_as(nodes@, j as int),
        decreases j,
    {
        j -= 1;
    }
    j > 0 && nodes[j - 1].kind == NodeKind::As
}

fn clause_start(kind: NodeKind) -> (r: bool)
    ensures
        r == starts_clause(kind),
{
    kind == NodeKind::Str || kind.word() || kind == NodeKind::Star || kind == NodeKind::Open(
        Delim::Brace,
    )
}

fn binding_start(kind: NodeKind) -> (r: bool)
    ensures
        r == starts_binding(kind),
{
    kind.word() || kind == NodeKind::Open(Delim::Brace) || kind == NodeKind::Open(Delim::Bracket)
        || kind == NodeKind::Colon
}

fn import_at(nodes: &Vec<Node>, i: usize) -> (r: Visit)
    requires
        i < nodes.len(),
    ensures
        r == classify_import(nodes@, i as int),
{
    let k = skip(nodes, i + 1);
    if k >= nodes.len() {
        Visit::Pass
    } else if nodes[k].kind == NodeKind::Open(Delim::Paren) {
        let a = skip(nodes, k + 1);
        if a < nodes.len() && nodes[a].kind == NodeKind::Str {
            let b = skip(nodes, a + 1);
            if b < nodes.len() && (b == nodes[k].link || nodes[b].kind == NodeKind::Comma) {
                Visit::DynamicImport { source: a }
            } else {
                Visit::Pass
            }
        } else {
            Visit::Pass
        }
    } else if clause_start(nodes[k].kind) {
        match source_of(nodes, k, true) {
            Search::Found(s) => Visit::Import { source: s },
            Search::Alias => Visit::Pass,
            Search::Missing => Visit::Malformed(ParseErrorKind::MalformedImport),
        }
    } else {
        Visit::Pass
    }
}

fn export_at(nodes: &Vec<Node>, i: usize) -> (r: Visit)
    requires
        i < nodes.len(),
    ensures
        r == classify_export(nodes@, i as int),
{
    let t = skip(nodes, i + 1);
    let k = if t < nodes.len() && nodes[t].kind == NodeKind::Type {
        skip(nodes, t + 1)
    } else {
        t
    };
    if k >= nodes.len() {
        Visit::Pass
    } else if nodes[k].kind == NodeKind::Star {
        match source_of(nodes, k + 1, false) {
            Search::Found(s) => Visit::ReExport { source: s },
            _ => Visit::Malformed(ParseErrorKind::MalformedExport),
        }
    } else if nodes[k].kind == NodeKind::Open(Delim::Brace) {
        let f = skip(nodes, next_after(nodes, k));
        if f < nodes.len() && nodes[f].kind == NodeKind::From {
            let g = skip(nodes, f + 1);
            if g < nodes.len() && nodes[g].kind == NodeKind::Str {
                Visit::ReExport { source: g }
            } else {
                Visit::Malformed(ParseErrorKind::MalformedExport)
            }
        } else {
            Visit::Pass
        }
    } else {
        Visit::Pass
    }
}

fn declaration_at(nodes: &Vec<Node>, i: usize) -> (r: Visit)
    requires
        i < nodes.len(),
    ensures
        r == classify_declaration(nodes@, i as int),
{
    let k = skip(nodes, i + 1);
    if after_as(nodes, i) || (k < nodes.len() && binding_start(nodes[k].kind)) {
        Visit::Pass
    } else {
        Visit::Malformed(ParseErrorKind::MissingBinding)
    }
}

fn tag_at(nodes: &Vec<Node>, i: usize) -> (r: Visit)
    requires
        i < nodes.len(),
    ensures
        r == classify_tag(nodes@, i as int),
{
    let t = skip(nodes, i + 1);
    if t < nodes.len() && nodes[t].kind == NodeKind::Open(Delim::Template) {
        Visit::Style { open: t, close: nodes[t].link }
    } else {
        Visit::Pass
    }
}

/// Classifies node `i`.
pub fn classify_node(nodes: &Vec<Node>, i: usize) -> (r: Visit)
    requires
        i < nodes.len(),
    ensures
        r == classify(nodes@, i as int),
{
    let kind = nodes[i].kind;
    if i > 0 && nodes[i - 1].kind == NodeKind::Dot {
        Visit::Pass
    } else if kind == NodeKind::Import {
        import_at(nodes, i)
    } else if kind == NodeKind::Export {
        export_at(nodes, i)
    } else if kind == NodeKind::Decl {
        declaration_at(nodes, i)
    } else if kind == NodeKind::CssTag {
        tag_at(nodes, i)
    } else {
        Visit::Pass
    }
}

/// Looks for the first form that the syntax does not allow.
pub fn find_malformed(nodes: &Vec<Node>) -> (r: Option<(usize, ParseErrorKind)>)
    ensures
        match r {
            Some(b) => first_malformed(nodes@, 0) == Some((b.0 as int, b.1)) && b.0 < nodes.len(),
            None => first_malformed(nodes@, 0) is None,
        },
{
    let mut i: usize = 0;
    while i < nodes.len()
        invariant
            i <= nodes.len(),
            first_malformed(nodes@, 0) == first_malformed(nodes@, i as int),
        decreases nodes.len() - i,
    {
        match classify_node(nodes, i) {
            Visit::Malformed(kind) => {
                return Some((i, kind));
            },
            _ => {},
        }
        i += 1;
    }
    None
}

} // verus!
