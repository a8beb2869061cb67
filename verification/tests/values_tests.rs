use templatr::data::{PlaceHolder, PlaceholderValues, TemplateManifest};
use templatr::exec::{find_missing_placeholders, validate_values, ExecError};

fn placeholder(target: &str, optional: bool, regex: Option<&str>) -> PlaceHolder {
    PlaceHolder {
        target: target.to_string(),
        prompt: format!("value for {target}"),
        optional,
        regex: regex.map(str::to_string),
    }
}

fn manifest(placeholders: Vec<PlaceHolder>) -> TemplateManifest {
    TemplateManifest {
        name: "starter".to_string(),
        author: "someone".to_string(),
        description: "a starter project".to_string(),
        src: "template".to_string(),
        placeholders,
    }
}

#[test]
fn all_required_values_present_validates() {
    let m = manifest(vec![
        placeholder("{{NAME}}", false, None),
        placeholder("{{YEAR}}", true, None),
    ]);
    let mut values = PlaceholderValues::new();
    values.insert(placeholder("{{NAME}}", false, None), "Acme".to_string());
    assert!(validate_values(&m, &values).is_ok());
}

#[test]
fn missing_required_values_are_all_reported_in_manifest_order() {
    let m = manifest(vec![
        placeholder("{{A}}", false, None),
        placeholder("{{B}}", true, None),
        placeholder("{{C}}", false, None),
        placeholder("{{D}}", false, None),
    ]);
    let mut values = PlaceholderValues::new();
    values.insert(placeholder("{{C}}", false, None), "supplied".to_string());
    match validate_values(&m, &values) {
        Err(ExecError::MissingPlaceholders(missing)) => {
            let targets: Vec<&str> = missing.iter().map(|p| p.target.as_str()).collect();
            assert_eq!(targets, vec!["{{A}}", "{{D}}"]);
        }
        other => panic!("expected missing placeholders, got {other:?}"),
    }
}

#[test]
fn find_missing_skips_optional_placeholders() {
    let m = manifest(vec![
        placeholder("{{A}}", true, None),
        placeholder("{{B}}", false, None),
    ]);
    let values = PlaceholderValues::new();
    let missing = find_missing_placeholders(&m, &values);
    assert_eq!(missing.len(), 1);
    assert_eq!(missing[0].target, "{{B}}");
}

#[test]
fn value_matching_its_pattern_validates() {
    let m = manifest(vec![placeholder("{{YEAR}}", false, Some("^[0-9]{4}$"))]);
    let mut values = PlaceholderValues::new();
    values.insert(
        placeholder("{{YEAR}}", false, Some("^[0-9]{4}$")),
        "2024".to_string(),
    );
    assert!(validate_values(&m, &values).is_ok());
}

#[test]
fn value_failing_its_pattern_is_rejected() {
    let m = manifest(vec![placeholder("{{YEAR}}", false, Some("^[0-9]{4}$"))]);
    let mut values = PlaceholderValues::new();
    values.insert(
        placeholder("{{YEAR}}", false, Some("^[0-9]{4}$")),
        "next year".to_string(),
    );
    match validate_values(&m, &values) {
        Err(ExecError::PlaceholderDoesNotMatchRegex(value, pattern, ph)) => {
            assert_eq!(value, "next year");
            assert_eq!(pattern, "^[0-9]{4}$");
            assert_eq!(ph.target, "{{YEAR}}");
        }
        other => panic!("expected a pattern mismatch, got {other:?}"),
    }
}

#[test]
fn first_offending_entry_is_the_one_reported() {
    let m = manifest(vec![]);
    let mut values = PlaceholderValues::new();
    values.insert(placeholder("{{A}}", false, Some("^a+$")), "aaa".to_string());
    values.insert(placeholder("{{B}}", false, Some("^b+$")), "zzz".to_string());
    values.insert(placeholder("{{C}}", false, Some("^c+$")), "zzz".to_string());
    match validate_values(&m, &values) {
        Err(ExecError::PlaceholderDoesNotMatchRegex(_, pattern, _)) => {
            assert_eq!(pattern, "^b+$");
        }
        other => panic!("expected a pattern mismatch, got {other:?}"),
    }
}

#[test]
fn supplied_entry_with_invalid_pattern_is_rejected() {
    let m = manifest(vec![]);
    let mut values = PlaceholderValues::new();
    values.insert(placeholder("{{A}}", false, Some("(unclosed")), "x".to_string());
    match validate_values(&m, &values) {
        Err(ExecError::RegexError(pattern)) => assert_eq!(pattern, "(unclosed"),
        other => panic!("expected a regex error, got {other:?}"),
    }
}

#[test]
fn completeness_is_checked_before_formats() {
    // One placeholder is missing and another supplied value is malformed: the
    // batch completeness error wins.
    let m = manifest(vec![placeholder("{{A}}", false, None)]);
    let mut values = PlaceholderValues::new();
    values.insert(placeholder("{{B}}", false, Some("^b+$")), "zzz".to_string());
    assert!(matches!(
        validate_values(&m, &values),
        Err(ExecError::MissingPlaceholders(_))
    ));
}
