use templatr::exec::{
    check_template_presence, parse_manifest, plan_cache_refresh, validate_manifest, CacheAction,
    ExecError,
};

const GOOD_MANIFEST: &str = r#"{
    "name": "starter",
    "author": "someone",
    "description": "a starter project",
    "src": "template",
    "placeholders": [
        {"match": "{{NAME}}", "prompt": "Project name"},
        {"match": "{{YEAR}}", "prompt": "Year", "optional": true, "regex": "^[0-9]{4}$"}
    ]
}"#;

#[test]
fn parses_a_well_formed_manifest() {
    let m = parse_manifest(GOOD_MANIFEST).unwrap();
    assert_eq!(m.name, "starter");
    assert_eq!(m.author, "someone");
    assert_eq!(m.description, "a starter project");
    assert_eq!(m.src, "template");
    assert_eq!(m.placeholders.len(), 2);
    assert_eq!(m.placeholders[0].target, "{{NAME}}");
    assert_eq!(m.placeholders[0].prompt, "Project name");
    assert!(!m.placeholders[0].optional);
    assert_eq!(m.placeholders[0].regex, None);
    assert_eq!(m.placeholders[1].target, "{{YEAR}}");
    assert!(m.placeholders[1].optional);
    assert_eq!(m.placeholders[1].regex.as_deref(), Some("^[0-9]{4}$"));
}

#[test]
fn null_regex_means_no_regex() {
    let text = r#"{"name":"n","author":"a","description":"d","src":"s",
        "placeholders":[{"match":"x","prompt":"p","regex":null}]}"#;
    let m = parse_manifest(text).unwrap();
    assert_eq!(m.placeholders[0].regex, None);
}

#[test]
fn rejects_text_that_is_not_json() {
    let r = parse_manifest("not json at all {");
    assert!(matches!(r, Err(ExecError::SerdeError(_))));
}

#[test]
fn rejects_a_document_that_is_not_an_object() {
    let r = parse_manifest("[1, 2, 3]");
    assert!(matches!(r, Err(ExecError::SerdeError(_))));
}

#[test]
fn rejects_a_manifest_missing_a_required_field() {
    let text = r#"{"name":"n","author":"a","src":"s","placeholders":[]}"#;
    let r = parse_manifest(text);
    assert!(matches!(r, Err(ExecError::SerdeError(_))));
}

#[test]
fn rejects_a_field_of_the_wrong_type() {
    let text = r#"{"name":"n","author":"a","description":"d","src":7,"placeholders":[]}"#;
    assert!(matches!(parse_manifest(text), Err(ExecError::SerdeError(_))));
    let text = r#"{"name":"n","author":"a","description":"d","src":"s",
        "placeholders":[{"match":"x","prompt":"p","optional":"yes"}]}"#;
    assert!(matches!(parse_manifest(text), Err(ExecError::SerdeError(_))));
}

#[test]
fn rejects_a_placeholder_missing_its_token() {
    let text = r#"{"name":"n","author":"a","description":"d","src":"s",
        "placeholders":[{"prompt":"p"}]}"#;
    assert!(matches!(parse_manifest(text), Err(ExecError::SerdeError(_))));
}

#[test]
fn absent_src_directory_fails_with_no_src_folder_found() {
    let m = parse_manifest(GOOD_MANIFEST).unwrap();
    let r = validate_manifest(&m, false);
    assert!(matches!(r, Err(ExecError::NoSrcFolderFound)));
}

#[test]
fn valid_manifest_with_src_directory_validates() {
    let m = parse_manifest(GOOD_MANIFEST).unwrap();
    assert!(validate_manifest(&m, true).is_ok());
}

#[test]
fn one_invalid_regex_fails_the_whole_load() {
    let text = r#"{"name":"n","author":"a","description":"d","src":"s",
        "placeholders":[
            {"match":"a","prompt":"p","regex":"^[a-z]+$"},
            {"match":"b","prompt":"p","regex":"(unclosed"},
            {"match":"c","prompt":"p","regex":"^[0-9]+$"}
        ]}"#;
    let m = parse_manifest(text).unwrap();
    match validate_manifest(&m, true) {
        Err(ExecError::RegexError(pattern)) => assert_eq!(pattern, "(unclosed"),
        other => panic!("expected a regex error, got {other:?}"),
    }
}

#[test]
fn uncached_template_is_reported_before_its_manifest() {
    assert!(matches!(
        check_template_presence(false, false),
        Err(ExecError::TemplateNotFound)
    ));
    assert!(matches!(
        check_template_presence(false, true),
        Err(ExecError::TemplateNotFound)
    ));
    assert!(matches!(
        check_template_presence(true, false),
        Err(ExecError::NoManifestFound)
    ));
    assert!(check_template_presence(true, true).is_ok());
}

#[test]
fn absent_cache_path_is_cloned_and_existing_one_updated() {
    assert!(matches!(plan_cache_refresh(false), CacheAction::CloneFresh));
    assert!(matches!(plan_cache_refresh(true), CacheAction::Update));
}
