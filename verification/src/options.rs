//! The options of a compilation, and their validation. A payload arrives
//! as a list of named values; it becomes typed options once, before
//! anything is parsed.

use crate::error::{ConfigurationError, OptionField};
use crate::text::{chars_of, range_is};
use vstd::prelude::*;

verus! {

/// The module system that the consumer of the code expects. The emitter
/// does not convert between module systems: under either value the
/// declarations are emitted as they are written.
#[derive(Clone, Copy, Debug, PartialEq, Eq, Structural)]
pub enum ModuleFormat {
    Esm,
    Other,
}

/// What becomes of a style template in the emitted code.
#[derive(Clone, Copy, Debug, PartialEq, Eq, Structural)]
pub enum CssExtractionMode {
    /// The template stays where it is.
    Inline,
    /// The template is replaced by a reference to its identifier.
    Lifted,
}

/// The options of one compilation.
#[derive(Clone, Copy, Debug, PartialEq, Eq, Structural)]
pub struct EmitOptions {
    pub produce_source_map: bool,
    pub module_output_format: ModuleFormat,
    pub css_extraction_mode: CssExtractionMode,
    /// Whether a specifier whose normal form differs from its text is
    /// written in normal form in the emitted code.
    pub rewrite_specifiers: bool,
}

/// A value of a configuration payload.
#[derive(Debug)]
pub enum OptionValue {
    Flag(bool),
    Text(String),
    /// A value that is neither a truth value nor text.
    Other,
}

/// A named value of a configuration payload.
#[derive(Debug)]
pub struct OptionEntry {
    pub key: String,
    pub value: OptionValue,
}

/// The mathematical content of an [`OptionValue`].
pub ghost enum OptionValueView {
    Flag(bool),
    Text(Seq<char>),
    Other,
}

/// The mathematical content of an [`OptionEntry`].
pub ghost struct OptionEntryView {
    pub key: Seq<char>,
    pub value: OptionValueView,
}

impl View for OptionValue {
    type V = OptionValueView;

    open spec fn view(&self) -> OptionValueView {
        match self {
            OptionValue::Flag(b) => OptionValueView::Flag(*b),
            OptionValue::Text(t) => OptionValueView::Text(t@),
            OptionValue::Other => OptionValueView::Other,
        }
    }
}

impl View for OptionEntry {
    type V = OptionEntryView;

    open spec fn view(&self) -> OptionEntryView {
        OptionEntryView { key: self.key@, value: self.value@ }
    }
}

/// The contents of a payload.
pub open spec fn entry_views(v: Seq<OptionEntry>) -> Seq<OptionEntryView> {
    Seq::new(v.len(), |i: int| v[i]@)
}

/// The name under which a payload carries `field`.
pub open spec fn field_name(field: OptionField) -> Seq<char> {
    field.name()
}

/// Whether `key` names an option.
pub open spec fn is_known(key: Seq<char>) -> bool {
    key == field_name(OptionField::ProduceSourceMap) || key == field_name(
        OptionField::ModuleOutputFormat,
    ) || key == field_name(OptionField::CssExtractionMode) || key == field_name(
        OptionField::RewriteSpecifiers,
    )
}

/// Index of the first entry at or after `from` whose key names no option.
pub open spec fn first_unknown(entries: Seq<OptionEntryView>, from: int) -> Option<int>
    decreases entries.len() - from,
{
    if from < 0 || from >= entries.len() {
        None
    } else if !is_known(entries[from].key) {
        Some(from)
    } else {
        first_unknown(entries, from + 1)
    }
}

/// The value of the first entry at or after `from` that is named `key`.
pub open spec fn lookup(entries: Seq<OptionEntryView>, key: Seq<char>, from: int) -> Option<
    OptionValueView,
>
    decreases entries.len() - from,
{
    if from < 0 || from >= entries.len() {
        None
    } else if entries[from].key == key {
        Some(entries[from].value)
    } else {
        lookup(entries, key, from + 1)
    }
}

/// The truth value of `field`; where the payload lacks it, `default` if
/// there is one.
pub open spec fn flag_model(
    entries: Seq<OptionEntryView>,
    field: OptionField,
    default: Option<bool>,
) -> Result<bool, ConfigurationError> {
    match lookup(entries, field_name(field), 0) {
        None => match default {
            Some(b) => Ok(b),
            None => Err(ConfigurationError::Missing(field)),
        },
        Some(OptionValueView::Flag(b)) => Ok(b),
        Some(_) => Err(ConfigurationError::Invalid(field)),
    }
}

/// The module format that the payload asks for: `esm` or `other`.
pub open spec fn format_model(entries: Seq<OptionEntryView>) -> Result<
    ModuleFormat,
    ConfigurationError,
> {
    match lookup(entries, field_name(OptionField::ModuleOutputFormat), 0) {
        None => Err(ConfigurationError::Missing(OptionField::ModuleOutputFormat)),
        Some(OptionValueView::Text(t)) => if t == "esm"@ {
            Ok(ModuleFormat::Esm)
        } else if t == "other"@ {
            Ok(ModuleFormat::Other)
        } else {
            Err(ConfigurationError::Invalid(OptionField::ModuleOutputFormat))
        },
        Some(_) => Err(ConfigurationError::Invalid(OptionField::ModuleOutputFormat)),
    }
}

/// The extraction mode that the payload asks for: `inline` or `lifted`.
pub open spec fn css_mode_model(entries: Seq<OptionEntryView>) -> Result<
    CssExtractionMode,
    ConfigurationError,
> {
    match lookup(entries, field_name(OptionField::CssExtractionMode), 0) {
        None => Err(ConfigurationError::Missing(OptionField::CssExtractionMode)),
        Some(OptionValueView::Text(t)) => if t == "inline"@ {
            Ok(CssExtractionMode::Inline)
        } else if t == "lifted"@ {
            Ok(CssExtractionMode::Lifted)
        } else {
            Err(ConfigurationError::Invalid(OptionField::CssExtractionMode))
        },
        Some(_) => Err(ConfigurationError::Invalid(OptionField::CssExtractionMode)),
    }
}

/// The options that a payload stands for.
///
/// An entry with an unknown name fails the payload, the first such entry
/// being reported. Then the options are read in the order
/// `produceSourceMap`, `moduleOutputFormat`, `cssExtractionMode`, which
/// are required, and `rewriteSpecifiers`, which is off when absent; the
/// first that is missing or ill-typed is reported. Of two entries with one
/// name the first counts.
pub open spec fn options_model(entries: Seq<OptionEntryView>) -> Result<
    EmitOptions,
    ConfigurationError,
> {
    match first_unknown(entries, 0) {
        Some(i) => Err(ConfigurationError::Unknown(i as usize)),
        None => match flag_model(entries, OptionField::ProduceSourceMap, None) {
            Err(e) => Err(e),
            Ok(produce_source_map) => match format_model(entries) {
                Err(e) => Err(e),
                Ok(module_output_format) => match css_mode_model(entries) {
                    Err(e) => Err(e),
                    Ok(css_extraction_mode) => match flag_model(
                        entries,
                        OptionField::RewriteSpecifiers,
                        Some(false),
                    ) {
                        Err(e) => Err(e),
                        Ok(rewrite_specifiers) => Ok(
                            EmitOptions {
                                produce_source_map,
                                module_output_format,
                                css_extraction_mode,
                                rewrite_specifiers,
                            },
                        ),
                    },
                },
            },
        },
    }
}

/// Whether two strings hold the same characters.
pub fn same_text(a: &str, b: &str) -> (r: bool)
    ensures
        r == (a@ == b@),
{
    let x = chars_of(a);
    let y = chars_of(b);
    let r = range_is(&x, 0, x.len(), y.as_slice());
    assert(x@.subrange(0, x.len() as int) == x@);
    r
}

fn name_of(field: OptionField) -> (s: &'static str)
    ensures
        s@ == field_name(field),
{
    field.name_text()
}

fn known(key: &str) -> (r: bool)
    ensures
        r == is_known(key@),
{
    same_text(key, name_of(OptionField::ProduceSourceMap)) || same_text(
        key,
        name_of(OptionField::ModuleOutputFormat),
    ) || same_text(key, name_of(OptionField::CssExtractionMode)) || same_text(
        key,
        name_of(OptionField::RewriteSpecifiers),
    )
}

fn find_unknown(entries: &Vec<OptionEntry>) -> (r: Option<usize>)
    ensures
        match r {
            Some(i) => first_unknown(entry_views(entries@), 0) == Some(i as int),
            None => first_unknown(entry_views(entries@), 0) is None,
        },
{
    let ghost views = entry_views(entries@);
    let mut i: usize = 0;
    while i < entries.len()
        invariant
            i <= entries.len(),
            views == entry_views(entries@),
            first_unknown(views, 0) == first_unknown(views, i as int),
        decreases entries.len() - i,
    {
        assert(views[i as int] == entries@[i as int]@);
        if !known(entries[i].key.as_str()) {
            return Some(i);
        }
        i += 1;
    }
    None
}

fn find<'a>(entries: &'a Vec<OptionEntry>, field: OptionField) -> (r: Option<&'a OptionValue>)
    ensures
        match r {
            Some(v) => lookup(entry_views(entries@), field_name(field), 0) == Some(v@),
            None => lookup(entry_views(entries@), field_name(field), 0) is None,
        },
{
    let ghost views = entry_views(entries@);
    let name = name_of(field);
    let mut i: usize = 0;
    while i < entries.len()
        invariant
            i <= entries.len(),
            views == entry_views(entries@),
            name@ == field_name(field),
            lookup(views, field_name(field), 0) == lookup(views, field_name(field), i as int),
        decreases entries.len() - i,
    {
        assert(views[i as int] == entries@[i as int]@);
        if same_text(entries[i].key.as_str(), name) {
            return Some(&entries[i].value);
        }
        i += 1;
    }
    None
}

fn flag(entries: &Vec<OptionEntry>, field: OptionField, default: Option<bool>) -> (r: Result<
    bool,
    ConfigurationError,
>)
    ensures
        r == flag_model(entry_views(entries@), field, default),
{
    match find(entries, field) {
        None => match default {
            Some(b) => Ok(b),
            None => Err(ConfigurationError::Missing(field)),
        },
        Some(OptionValue::Flag(b)) => Ok(*b),
        Some(_) => Err(ConfigurationError::Invalid(field)),
    }
}

fn format(entries: &Vec<OptionEntry>) -> (r: Result<ModuleFormat, ConfigurationError>)
    ensures
        r == format_model(entry_views(entries@)),
{
    match find(entries, OptionField::ModuleOutputFormat) {
        None => Err(ConfigurationError::Missing(OptionField::ModuleOutputFormat)),
        Some(OptionValue::Text(t)) => {
            if same_text(t.as_str(), "esm") {
                Ok(ModuleFormat::Esm)
            } else if same_text(t.as_str(), "other") {
                Ok(ModuleFormat::Other)
            } else {
                Err(ConfigurationError::Invalid(OptionField::ModuleOutputFormat))
            }
        },
        Some(_) => Err(ConfigurationError::Invalid(OptionField::ModuleOutputFormat)),
    }
}

fn css_mode(entries: &Vec<OptionEntry>) -> (r: Result<CssExtractionMode, ConfigurationError>)
    ensures
        r == css_mode_model(entry_views(entries@)),
{
    match find(entries, OptionField::CssExtractionMode) {
        None => Err(ConfigurationError::Missing(OptionField::CssExtractionMode)),
        Some(OptionValue::Text(t)) => {
            if same_text(t.as_str(), "inline") {
                Ok(CssExtractionMode::Inline)
            } else if same_text(t.as_str(), "lifted") {
                Ok(CssExtractionMode::Lifted)
            } else {
                Err(ConfigurationError::Invalid(OptionField::CssExtractionMode))
            }
        },
        Some(_) => Err(ConfigurationError::Invalid(OptionField::CssExtractionMode)),
    }
}

impl EmitOptions {
    /// Validates a payload and turns it into options.
    pub fn from_entries(entries: &Vec<OptionEntry>) -> (r: Result<EmitOptions, ConfigurationError>)
        ensures
            r == options_model(entry_views(entries@)),
    {
        match find_unknown(entries) {
            Some(i) => {
                return Err(ConfigurationError::Unknown(i));
            },
            None => {},
        }
        let produce_source_map = match flag(entries, OptionField::ProduceSourceMap, None) {
            Ok(b) => b,
            Err(e) => {
                return Err(e);
            },
        };
        let module_output_format = match format(entries) {
            Ok(f) => f,
            Err(e) => {
                return Err(e);
            },
        };
        let css_extraction_mode = match css_mode(entries) {
            Ok(m) => m,
            Err(e) => {
                return Err(e);
            },
        };
        let rewrite_specifiers = match flag(entries, OptionField::RewriteSpecifiers, Some(false)) {
            Ok(b) => b,
            Err(e) => {
                return Err(e);
            },
        };
        Ok(
            EmitOptions {
                produce_source_map,
                module_output_format,
                css_extraction_mode,
                rewrite_specifiers,
            },
        )
    }
}

} // verus!
