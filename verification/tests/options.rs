use alef_compiler::error::{ConfigurationError, OptionField};
use alef_compiler::options::{
    same_text, CssExtractionMode, EmitOptions, ModuleFormat, OptionEntry, OptionValue,
};

fn flag(key: &str, value: bool) -> OptionEntry {
    OptionEntry { key: key.to_string(), value: OptionValue::Flag(value) }
}

fn text(key: &str, value: &str) -> OptionEntry {
    OptionEntry { key: key.to_string(), value: OptionValue::Text(value.to_string()) }
}

fn complete() -> Vec<OptionEntry> {
    vec![
        flag("produceSourceMap", true),
        text("moduleOutputFormat", "esm"),
        text("cssExtractionMode", "lifted"),
    ]
}

#[test]
fn complete_payload_becomes_options() {
    assert_eq!(
        EmitOptions::from_entries(&complete()),
        Ok(EmitOptions {
            produce_source_map: true,
            module_output_format: ModuleFormat::Esm,
            css_extraction_mode: CssExtractionMode::Lifted,
            rewrite_specifiers: false,
        })
    );
    let other = vec![
        flag("rewriteSpecifiers", true),
        text("cssExtractionMode", "inline"),
        text("moduleOutputFormat", "other"),
        flag("produceSourceMap", false),
    ];
    assert_eq!(
        EmitOptions::from_entries(&other),
        Ok(EmitOptions {
            produce_source_map: false,
            module_output_format: ModuleFormat::Other,
            css_extraction_mode: CssExtractionMode::Inline,
            rewrite_specifiers: true,
        })
    );
}

#[test]
fn missing_fields_are_reported_in_order() {
    assert_eq!(
        EmitOptions::from_entries(&Vec::new()),
        Err(ConfigurationError::Missing(OptionField::ProduceSourceMap))
    );
    assert_eq!(
        EmitOptions::from_entries(&vec![flag("produceSourceMap", true)]),
        Err(ConfigurationError::Missing(OptionField::ModuleOutputFormat))
    );
    assert_eq!(
        EmitOptions::from_entries(&vec![
            text("moduleOutputFormat", "esm"),
            flag("produceSourceMap", true)
        ]),
        Err(ConfigurationError::Missing(OptionField::CssExtractionMode))
    );
}

#[test]
fn ill_typed_values_are_invalid() {
    let mut payload = complete();
    payload[0] = text("produceSourceMap", "yes");
    assert_eq!(
        EmitOptions::from_entries(&payload),
        Err(ConfigurationError::Invalid(OptionField::ProduceSourceMap))
    );
    let mut payload = complete();
    payload[1] = text("moduleOutputFormat", "ESM");
    assert_eq!(
        EmitOptions::from_entries(&payload),
        Err(ConfigurationError::Invalid(OptionField::ModuleOutputFormat))
    );
    let mut payload = complete();
    payload[2] = flag("cssExtractionMode", true);
    assert_eq!(
        EmitOptions::from_entries(&payload),
        Err(ConfigurationError::Invalid(OptionField::CssExtractionMode))
    );
    let mut payload = complete();
    payload[2] = text("cssExtractionMode", "");
    assert_eq!(
        EmitOptions::from_entries(&payload),
        Err(ConfigurationError::Invalid(OptionField::CssExtractionMode))
    );
    let mut payload = complete();
    payload.push(OptionEntry { key: "rewriteSpecifiers".to_string(), value: OptionValue::Other });
    assert_eq!(
        EmitOptions::from_entries(&payload),
        Err(ConfigurationError::Invalid(OptionField::RewriteSpecifiers))
    );
}

#[test]
fn unknown_names_are_reported_first() {
    let payload = vec![flag("produceSourceMap", true), flag("minify", true)];
    assert_eq!(EmitOptions::from_entries(&payload), Err(ConfigurationError::Unknown(1)));
    let mut payload = complete();
    payload.insert(0, text("producesourcemap", "x"));
    payload.push(flag("", true));
    assert_eq!(EmitOptions::from_entries(&payload), Err(ConfigurationError::Unknown(0)));
}

#[test]
fn first_entry_of_a_name_counts() {
    let mut payload = complete();
    payload.push(flag("produceSourceMap", false));
    payload.push(text("cssExtractionMode", "bogus"));
    assert_eq!(
        EmitOptions::from_entries(&payload),
        Ok(EmitOptions {
            produce_source_map: true,
            module_output_format: ModuleFormat::Esm,
            css_extraction_mode: CssExtractionMode::Lifted,
            rewrite_specifiers: false,
        })
    );
}

#[test]
fn texts_are_compared_character_by_character() {
    assert!(same_text("", ""));
    assert!(same_text("esm", "esm"));
    assert!(!same_text("esm", "es"));
    assert!(!same_text("es", "esm"));
    assert!(!same_text("esm", "esn"));
}
