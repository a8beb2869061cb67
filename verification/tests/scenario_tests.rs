//! End-to-end scenarios over the in-memory engine: load a manifest, validate
//! a value store against it, and rewrite a template file's text.

use templatr::data::PlaceholderValues;
use templatr::exec::{parse_manifest, validate_manifest, validate_values, ExecError};
use templatr::subst::substitute;

const MANIFEST: &str = r#"{
    "name": "starter",
    "author": "someone",
    "description": "a starter project",
    "src": "template",
    "placeholders": [
        {"match": "{{NAME}}", "prompt": "Project name", "optional": false}
    ]
}"#;

#[test]
fn supplied_value_is_written_into_the_template_file() {
    let manifest = parse_manifest(MANIFEST).unwrap();
    assert_eq!(manifest.src, "template");
    validate_manifest(&manifest, true).unwrap();

    let mut values = PlaceholderValues::new();
    values.insert(manifest.placeholders[0].clone(), "Acme".to_string());
    validate_values(&manifest, &values).unwrap();

    let readme = "# {{NAME}}";
    let (out, edited) = substitute(readme, &values);
    assert_eq!(out, "# Acme");
    assert!(edited);
}

#[test]
fn omitted_required_value_stops_instantiation_before_any_copy() {
    let manifest = parse_manifest(MANIFEST).unwrap();
    validate_manifest(&manifest, true).unwrap();

    let values = PlaceholderValues::new();
    match validate_values(&manifest, &values) {
        Err(ExecError::MissingPlaceholders(missing)) => {
            assert_eq!(missing.len(), 1);
            assert_eq!(missing[0].target, "{{NAME}}");
            assert_eq!(missing[0].prompt, "Project name");
        }
        other => panic!("expected missing placeholders, got {other:?}"),
    }
}
