use templatr::exec::ExecError;
use templatr::paths::{cache_root_from, get_cache_folder, get_template_cache_path, resolve_path_info};

#[test]
fn resolve_plain_owner_repo() {
    let info = resolve_path_info("/cache/templatr", "owner/repo", None);
    assert_eq!(info.name, "repo");
    assert_eq!(info.parent.as_deref(), Some("owner"));
    assert_eq!(info.git, "owner/repo");
    assert_eq!(info.path, "/cache/templatr/owner/repo/(default)");
}

#[test]
fn resolve_full_url() {
    let info = resolve_path_info(
        "/cache/templatr",
        "https://github.com/someuser/template",
        Some("main"),
    );
    assert_eq!(info.name, "template");
    assert_eq!(info.parent.as_deref(), Some("someuser"));
    assert_eq!(info.path, "/cache/templatr/someuser/template/main");
}

#[test]
fn resolve_single_segment_has_no_parent() {
    let info = resolve_path_info("/cache/templatr", "repo", None);
    assert_eq!(info.name, "repo");
    assert_eq!(info.parent, None);
    assert_eq!(info.path, "/cache/templatr/repo/(default)");
}

#[test]
fn resolve_trailing_slash_is_ignored() {
    let info = resolve_path_info("/cache/templatr", "owner/repo/", None);
    assert_eq!(info.name, "repo");
    assert_eq!(info.parent.as_deref(), Some("owner"));
    assert_eq!(info.path, "/cache/templatr/owner/repo/(default)");
}

#[test]
fn resolve_collapses_doubled_separators() {
    let info = resolve_path_info("/cache/templatr", "owner//repo", None);
    assert_eq!(info.name, "repo");
    assert_eq!(info.parent.as_deref(), Some("owner"));
}

#[test]
fn resolve_degenerate_identifier_is_its_own_name() {
    let info = resolve_path_info("/c", "///", None);
    assert_eq!(info.name, "///");
    assert_eq!(info.parent, None);
    let empty = resolve_path_info("/c", "", None);
    assert_eq!(empty.name, "");
    assert_eq!(empty.parent, None);
}

#[test]
fn same_name_different_parents_get_different_paths() {
    let a = resolve_path_info("/c", "orga/tool", None);
    let b = resolve_path_info("/c", "orgb/tool", None);
    assert_eq!(a.name, b.name);
    assert_ne!(a.path, b.path);
}

#[test]
fn different_branches_get_different_paths() {
    let a = resolve_path_info("/c", "owner/repo", Some("main"));
    let b = resolve_path_info("/c", "owner/repo", Some("dev"));
    let d = resolve_path_info("/c", "owner/repo", None);
    assert_ne!(a.path, b.path);
    assert_ne!(a.path, d.path);
    assert_ne!(b.path, d.path);
}

#[test]
fn default_branch_path_is_stable() {
    let a = resolve_path_info("/c", "owner/repo", None);
    let b = resolve_path_info("/c", "owner/repo", None);
    assert_eq!(a.path, b.path);
}

#[test]
fn cache_folder_ends_with_templates_directory() {
    // Whether a cache root is discoverable depends on the environment; when
    // one is, the folder is always the templates directory below it.
    if let Ok(folder) = get_cache_folder() {
        assert!(folder.ends_with("/templatr"));
    }
}

#[test]
fn template_cache_path_joins_below_cache_folder() {
    if let (Ok(folder), Ok(path)) = (get_cache_folder(), get_template_cache_path("owner/repo")) {
        assert_eq!(path, format!("{folder}/owner/repo"));
    }
}

#[test]
fn branch_named_like_the_default_marker_shares_the_default_slot() {
    // The sentinel segment keeps branches apart from the default in every
    // pairing but this literal one, which shares the slot by construction.
    let a = resolve_path_info("/c", "owner/repo", Some("(default)"));
    let b = resolve_path_info("/c", "owner/repo", None);
    assert_eq!(a.path, b.path);
    let c = resolve_path_info("/c", "owner/repo", Some("main"));
    assert_ne!(a.path, c.path);
}

#[test]
fn cache_root_prefers_the_cache_directory() {
    let r = cache_root_from(
        Some("/home/u/.cache".to_string()),
        Some("/home/u/.local/share".to_string()),
        Some("/home/u/.data".to_string()),
    );
    assert_eq!(r.unwrap(), "/home/u/.cache/templatr");
}

#[test]
fn cache_root_falls_back_to_local_data_then_data() {
    let r = cache_root_from(None, Some("/home/u/.local/share".to_string()), Some("/d".to_string()));
    assert_eq!(r.unwrap(), "/home/u/.local/share/templatr");
    let r = cache_root_from(None, None, Some("/d".to_string()));
    assert_eq!(r.unwrap(), "/d/templatr");
}

#[test]
fn cache_root_fails_only_when_nothing_is_discoverable() {
    assert!(matches!(cache_root_from(None, None, None), Err(ExecError::NoCacheFound)));
}
