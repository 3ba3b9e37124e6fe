//! The registry of one compilation: the dependencies and style templates
//! found in the module, in the order of their occurrence. Resolving a
//! specifier means classifying and normalising its text; nothing is
//! fetched.

use crate::span::Span;
use crate::text::{append_range, range_is};
use vstd::prelude::*;

verus! {

/// How a module refers to what it depends on.
#[derive(Clone, Copy, Debug, PartialEq, Eq, Structural)]
pub enum ImportKind {
    /// An import declaration, or an export that names a source.
    Static,
    /// A call `import(..)` with a literal argument.
    Dynamic,
    /// A style template tagged `css`.
    Css,
}

/// One place where the module refers to another module or to a style
/// template.
#[derive(Debug)]
pub struct DependencyDescriptor {
    /// The specifier as written in the source.
    pub specifier: String,
    /// The specifier in normal form.
    pub resolved: String,
    pub kind: ImportKind,
    /// For an import, the string literal that names the source; for a style
    /// template, the tag together with the template.
    pub span: Span,
}

/// The mathematical content of a [`DependencyDescriptor`].
pub ghost struct DependencyView {
    pub specifier: Seq<char>,
    pub resolved: Seq<char>,
    pub kind: ImportKind,
    pub span: Span,
}

impl View for DependencyDescriptor {
    type V = DependencyView;

    open spec fn view(&self) -> DependencyView {
        DependencyView {
            specifier: self.specifier@,
            resolved: self.resolved@,
            kind: self.kind,
            span: self.span,
        }
    }
}

/// A style template taken from the module.
#[derive(Debug)]
pub struct CSSTemplate {
    /// The identifier under which the template is lifted: `__css_`
    /// followed by the number of templates recorded before it.
    pub id: String,
    /// The text between the backticks, with the n-th interpolation
    /// replaced by the marker `${n}`.
    pub text: String,
    /// The tag together with the template.
    pub span: Span,
    /// Where the interpolated expressions stand in the source, one span
    /// for each marker.
    pub exprs: Vec<Span>,
}

/// The mathematical content of a [`CSSTemplate`].
pub ghost struct CssView {
    pub id: Seq<char>,
    pub text: Seq<char>,
    pub span: Span,
    pub exprs: Seq<Span>,
}

impl View for CSSTemplate {
    type V = CssView;

    open spec fn view(&self) -> CssView {
        CssView { id: self.id@, text: self.text@, span: self.span, exprs: self.exprs@ }
    }
}

/// The contents of a list of descriptors.
pub open spec fn dependency_views(v: Seq<DependencyDescriptor>) -> Seq<DependencyView> {
    Seq::new(v.len(), |i: int| v[i]@)
}

/// The contents of a list of templates.
pub open spec fn css_views(v: Seq<CSSTemplate>) -> Seq<CssView> {
    Seq::new(v.len(), |i: int| v[i]@)
}

/// The registry that the walk fills.
#[derive(Debug)]
pub struct Resolver {
    pub dep_graph: Vec<DependencyDescriptor>,
    pub css: Vec<CSSTemplate>,
}

impl Resolver {
    /// The dependencies recorded so far.
    pub open spec fn deps(&self) -> Seq<DependencyView> {
        dependency_views(self.dep_graph@)
    }

    /// The style templates recorded so far.
    pub open spec fn templates(&self) -> Seq<CssView> {
        css_views(self.css@)
    }

    /// An empty registry.
    pub fn new() -> (r: Resolver)
        ensures
            r.deps() == Seq::<DependencyView>::empty(),
            r.templates() == Seq::<CssView>::empty(),
    {
        let r = Resolver { dep_graph: Vec::new(), css: Vec::new() };
        assert(r.deps() =~= Seq::<DependencyView>::empty());
        assert(r.templates() =~= Seq::<CssView>::empty());
        r
    }

    /// Appends a dependency. Nothing is merged: two occurrences of one
    /// specifier are two entries.
    pub fn record_dependency(&mut self, descriptor: DependencyDescriptor)
        ensures
            final(self).deps() == old(self).deps().push(descriptor@),
            final(self).templates() == old(self).templates(),
    {
        self.dep_graph.push(descriptor);
        assert(self.deps() =~= old(self).deps().push(descriptor@));
    }

    /// Appends a style template.
    pub fn record_css_template(&mut self, template: CSSTemplate)
        ensures
            final(self).templates() == old(self).templates().push(template@),
            final(self).deps() == old(self).deps(),
    {
        self.css.push(template);
        assert(self.templates() =~= old(self).templates().push(template@));
    }

    /// The dependencies in the order in which they were recorded.
    pub fn dependencies(&self) -> (r: &Vec<DependencyDescriptor>)
        ensures
            dependency_views(r@) == self.deps(),
    {
        &self.dep_graph
    }

    /// The style templates in the order in which they were recorded.
    pub fn css_templates(&self) -> (r: &Vec<CSSTemplate>)
        ensures
            css_views(r@) == self.templates(),
    {
        &self.css
    }
}

/// The families of specifiers.
#[derive(Clone, Copy, Debug, PartialEq, Eq, Structural)]
pub enum SpecifierClass {
    /// Starts with `./` or `../`: a path relative to the importing module.
    Relative,
    /// Starts with `/`: a path from the root.
    Absolute,
    /// Holds `://`: an address.
    Remote,
    /// Anything else: the name of a package.
    Bare,
}

pub open spec fn starts_with(s: Seq<char>, prefix: Seq<char>) -> bool {
    s.len() >= prefix.len() && s.subrange(0, prefix.len() as int) == prefix
}

pub open spec fn ends_with(s: Seq<char>, suffix: Seq<char>) -> bool {
    s.len() >= suffix.len() && s.subrange(s.len() - suffix.len(), s.len() as int) == suffix
}

/// Whether `://` stands in `s` at or after offset `from`.
pub open spec fn has_scheme_mark(s: Seq<char>, from: int) -> bool
    decreases s.len() - from,
{
    if from < 0 || from + 3 > s.len() {
        false
    } else if s[from] == ':' && s[from + 1] == '/' && s[from + 2] == '/' {
        true
    } else {
        has_scheme_mark(s, from + 1)
    }
}

/// The family that the specifier `raw` belongs to.
pub open spec fn classify_specifier(raw: Seq<char>) -> SpecifierClass {
    if starts_with(raw, seq!['.', '/']) || starts_with(raw, seq!['.', '.', '/']) {
        SpecifierClass::Relative
    } else if starts_with(raw, seq!['/']) {
        SpecifierClass::Absolute
    } else if has_scheme_mark(raw, 0) {
        SpecifierClass::Remote
    } else {
        SpecifierClass::Bare
    }
}

/// Length of the script extension that `raw` ends with: `.tsx`, `.jsx` or
/// `.ts`; zero when it ends with none of them.
pub open spec fn script_extension(raw: Seq<char>) -> int {
    if ends_with(raw, seq!['.', 't', 's', 'x']) || ends_with(raw, seq!['.', 'j', 's', 'x']) {
        4
    } else if ends_with(raw, seq!['.', 't', 's']) {
        3
    } else {
        0
    }
}

/// The normal form of the specifier `raw`. A path, relative or absolute,
/// that ends with a script extension gets the extension `.js`; every other
/// specifier stays as it is.
pub open spec fn normalize(raw: Seq<char>) -> Seq<char> {
    let class = classify_specifier(raw);
    let ext = script_extension(raw);
    if (class == SpecifierClass::Relative || class == SpecifierClass::Absolute) && ext > 0 {
        raw.subrange(0, raw.len() - ext) + seq!['.', 'j', 's']
    } else {
        raw
    }
}

fn prefix_is(src: &Vec<char>, start: usize, end: usize, lit: &[char]) -> (r: bool)
    requires
        start <= end <= src.len(),
    ensures
        r == starts_with(src@.subrange(start as int, end as int), lit@),
{
    if end - start < lit.len() {
        return false;
    }
    let r = range_is(src, start, start + lit.len(), lit);
    assert(src@.subrange(start as int, end as int).subrange(0, lit.len() as int)
        =~= src@.subrange(start as int, start + lit.len()));
    r
}

fn suffix_is(src: &Vec<char>, start: usize, end: usize, lit: &[char]) -> (r: bool)
    requires
        start <= end <= src.len(),
    ensures
        r == ends_with(src@.subrange(start as int, end as int), lit@),
{
    if end - start < lit.len() {
        return false;
    }
    let r = range_is(src, end - lit.len(), end, lit);
    assert(src@.subrange(start as int, end as int).subrange(
        end - start - lit.len(),
        end - start,
    ) =~= src@.subrange(end - lit.len(), end as int));
    r
}

fn scheme_mark(src: &Vec<char>, start: usize, end: usize) -> (r: bool)
    requires
        start <= end <= src.len(),
    ensures
        r == has_scheme_mark(src@.subrange(start as int, end as int), 0),
{
    let ghost s = src@.subrange(start as int, end as int);
    let mut i: usize = start;
    while end - i >= 3
        invariant
            start <= i <= end <= src.len(),
            s == src@.subrange(start as int, end as int),
            has_scheme_mark(s, 0) == has_scheme_mark(s, i - start),
        decreases end - i,
    {
        assert(s[i - start] == src@[i as int]);
        assert(s[i - start + 1] == src@[i + 1]);
        assert(s[i - start + 2] == src@[i + 2]);
        if src[i] == ':' && src[i + 1] == '/' && src[i + 2] == '/' {
            return true;
        }
        i += 1;
    }
    false
}

/// Classifies the specifier that stands in `src` at `start..end`.
pub fn specifier_class(src: &Vec<char>, start: usize, end: usize) -> (r: SpecifierClass)
    requires
        start <= end <= src.len(),
    ensures
        r == classify_specifier(src@.subrange(start as int, end as int)),
{
    let here = ['.', '/'];
    let up = ['.', '.', '/'];
    let root = ['/'];
    assert(here@ =~= seq!['.', '/']);
    assert(up@ =~= seq!['.', '.', '/']);
    assert(root@ =~= seq!['/']);
    if prefix_is(src, start, end, &here) || prefix_is(src, start, end, &up) {
        SpecifierClass::Relative
    } else if prefix_is(src, start, end, &root) {
        SpecifierClass::Absolute
    } else if scheme_mark(src, start, end) {
        SpecifierClass::Remote
    } else {
        SpecifierClass::Bare
    }
}

/// The normal form of the specifier that stands in `src` at `start..end`.
pub fn resolve_specifier(src: &Vec<char>, start: usize, end: usize) -> (r: Vec<char>)
    requires
        start <= end <= src.len(),
    ensures
        r@ == normalize(src@.subrange(start as int, end as int)),
{
    let tsx = ['.', 't', 's', 'x'];
    let jsx = ['.', 'j', 's', 'x'];
    let ts = ['.', 't', 's'];
    assert(tsx@ =~= seq!['.', 't', 's', 'x']);
    assert(jsx@ =~= seq!['.', 'j', 's', 'x']);
    assert(ts@ =~= seq!['.', 't', 's']);
    let ghost raw = src@.subrange(start as int, end as int);
    let class = specifier_class(src, start, end);
    let ext: usize = if suffix_is(src, start, end, &tsx) || suffix_is(src, start, end, &jsx) {
        4
    } else if suffix_is(src, start, end, &ts) {
        3
    } else {
        0
    };
    let mut out: Vec<char> = Vec::new();
    if (class == SpecifierClass::Relative || class == SpecifierClass::Absolute) && ext > 0 {
        append_range(&mut out, src, start, end - ext);
        out.push('.');
        out.push('j');
        out.push('s');
        assert(src@.subrange(start as int, end - ext) =~= raw.subrange(0, raw.len() - ext));
        assert(out@ =~= raw.subrange(0, raw.len() - ext) + seq!['.', 'j', 's']);
    } else {
        append_range(&mut out, src, start, end);
        assert(out@ =~= raw);
    }
    out
}

} // verus!
