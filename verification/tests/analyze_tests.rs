use aptu_coder::analyze_directory::{build_prefixes, relativize_formatted_text, BasePath};
use aptu_coder::validation::{
    edit_working_dir_outcome, existing_path_outcome, new_file_in_root_outcome,
    new_file_relative_outcome, new_file_target, path_error_message, path_join, path_starts_with,
    PathErrorKind,
};
use std::path::Path;

fn base_of(p: &Path) -> BasePath {
    BasePath {
        text: p.to_string_lossy().into_owned(),
        is_bare_root: p.has_root() && p.parent().is_none(),
    }
}

#[test]
fn relativize_formatted_text_prefix_construction_and_stripping() {
    let sep = std::path::MAIN_SEPARATOR;
    let alt = if sep == '/' { '\\' } else { '/' };
    let base = std::path::PathBuf::from(format!("tmp{sep}proj"));
    let mut text = format!(
        "first: tmp{sep}proj{sep}src{sep}lib.rs\nsecond: tmp{alt}proj{alt}src{alt}main.rs\nkeep: other{sep}file.txt"
    );
    relativize_formatted_text(&mut text, &[base_of(&base)], sep);
    assert_eq!(
        text,
        format!("first: src{sep}lib.rs\nsecond: src{alt}main.rs\nkeep: other{sep}file.txt")
    );
}

#[test]
fn relativize_formatted_text_trims_trailing_separators_and_avoids_double_prefix() {
    let sep = std::path::MAIN_SEPARATOR;
    let base = std::path::PathBuf::from(format!("tmp{sep}proj{sep}"));
    let mut text = format!("tmp{sep}proj{sep}README.md");
    relativize_formatted_text(&mut text, &[base_of(&base)], sep);
    assert_eq!(text, "README.md");
}

#[test]
fn relativize_formatted_text_skips_filesystem_root_bases() {
    let base = Path::new("/");
    let base_trailing = Path::new("//");
    let mut text = String::from("src/lib.rs\nsrc/main.rs");
    relativize_formatted_text(
        &mut text,
        &[base_of(base), base_of(base_trailing)],
        std::path::MAIN_SEPARATOR,
    );
    assert_eq!(text, "src/lib.rs\nsrc/main.rs");
}

#[test]
fn relativize_keeps_paths_outside_the_base() {
    let mut text = String::from("/work/repo/a.rs\n/elsewhere/b.rs\n/work/repository/c.rs");
    relativize_formatted_text(&mut text, &[base_of(Path::new("/work/repo"))], '/');
    assert_eq!(text, "a.rs\n/elsewhere/b.rs\n/work/repository/c.rs");
}

#[test]
fn prefixes_are_deduplicated_and_short_bases_skipped() {
    let bases = [
        base_of(Path::new("/a/b")),
        base_of(Path::new("/a/b/")),
        base_of(Path::new("x")),
    ];
    let ps = build_prefixes(&bases, '/');
    let texts: Vec<String> = ps.iter().map(|p| p.iter().collect()).collect();
    assert_eq!(texts, vec!["/a/b/".to_string(), "\\a\\b\\".to_string()]);
}

#[test]
fn path_containment_by_components() {
    assert!(path_starts_with("/a/b/c", "/a/b"));
    assert!(path_starts_with("/a/b", "/a/b"));
    assert!(path_starts_with("/a/b/", "/a/b"));
    assert!(!path_starts_with("/a/bc", "/a/b"));
    assert!(!path_starts_with("/a", "/a/b"));
    assert!(path_starts_with("/a//b/c", "/a/b"));
}

#[test]
fn path_error_messages() {
    assert_eq!(path_error_message(PathErrorKind::NotFound, "/x"), "path not found: /x");
    assert_eq!(
        path_error_message(PathErrorKind::PermissionDenied, "/x"),
        "permission denied: /x"
    );
    assert_eq!(path_error_message(PathErrorKind::Other, "/x"), "path is invalid: /x");
}

#[test]
fn path_joining() {
    assert_eq!(path_join("/w", "src"), "/w/src");
    assert_eq!(path_join("/w/", "src"), "/w/src");
    assert_eq!(path_join("", "src"), "src");
    assert_eq!(path_join("/w", "/abs"), "/abs");
}

#[test]
fn new_file_targets() {
    let t = new_file_target("src/new.rs", "/w", true).unwrap();
    assert_eq!((t.dir.as_str(), t.parent_text.as_str(), t.file_name.as_str()), ("/w/src", "src", "new.rs"));
    let t = new_file_target("new.rs", "/w", true).unwrap();
    assert_eq!((t.dir.as_str(), t.parent_text.as_str()), ("/w", ""));
    let t = new_file_target("./new.rs", "/w", true).unwrap();
    assert_eq!(t.dir, "/w");
    let t = new_file_target("./new.rs", "/w", false).unwrap();
    assert_eq!(t.dir, "/w/.");
    let t = new_file_target("/abs/x.rs", "/w", false).unwrap();
    assert_eq!(t.dir, "/abs");
    assert_eq!(
        new_file_target("..", "/w", true).unwrap_err(),
        "path must include a filename component"
    );
    assert!(new_file_target("/", "/w", true).is_err());
}

#[test]
fn new_file_outcomes() {
    let t = new_file_target("src/new.rs", "/w", true).unwrap();
    assert_eq!(
        new_file_in_root_outcome("/w", Ok("/w/src".to_string()), true, &t),
        Ok("/w/src/new.rs".to_string())
    );
    assert_eq!(
        new_file_in_root_outcome("/w", Ok("/other".to_string()), true, &t),
        Err("path is outside the working directory".to_string())
    );
    assert_eq!(
        new_file_in_root_outcome("/w", Ok("/w/src".to_string()), false, &t),
        Err("parent path is not a directory".to_string())
    );
    assert_eq!(
        new_file_in_root_outcome("/w", Err(PathErrorKind::NotFound), true, &t),
        Err("path not found: src".to_string())
    );
    assert_eq!(
        new_file_relative_outcome(Ok("/elsewhere".to_string()), true, &t),
        Ok("/elsewhere/new.rs".to_string())
    );
    assert_eq!(
        new_file_relative_outcome(Err(PathErrorKind::NotFound), true, &t),
        Err("parent directory does not exist: src".to_string())
    );
    assert_eq!(
        new_file_relative_outcome(Ok("/x".to_string()), false, &t),
        Err("parent path exists but is not a directory: src".to_string())
    );
}

#[test]
fn existing_path_and_working_dir_outcomes() {
    assert_eq!(existing_path_outcome("/w", Ok("/w/a.rs".to_string())), Ok("/w/a.rs".to_string()));
    assert_eq!(
        existing_path_outcome("/w", Ok("/wx/a.rs".to_string())),
        Err("path is outside the working directory".to_string())
    );
    assert_eq!(
        existing_path_outcome("/w", Err(PathErrorKind::NotFound)),
        Err("path not found".to_string())
    );
    assert_eq!(
        existing_path_outcome("/w", Err(PathErrorKind::PermissionDenied)),
        Err("permission denied".to_string())
    );
    assert_eq!(
        edit_working_dir_outcome(Err(PathErrorKind::NotFound), false),
        Err("path not found: working_dir".to_string())
    );
    assert_eq!(
        edit_working_dir_outcome(Ok("/w/f".to_string()), false),
        Err("working_dir must be a directory".to_string())
    );
    assert_eq!(edit_working_dir_outcome(Ok("/w".to_string()), true), Ok("/w".to_string()));
}

// The working directory the following checks resolve against, and what
// canonicalizing their paths gives there.
const CRATE_ROOT: &str = "/work/aptu-coder";

fn check_rejects_etc_passwd() {
    let result = existing_path_outcome(CRATE_ROOT, Ok("/etc/passwd".to_string()));
    assert!(result.is_err(), "validate_path should reject /etc/passwd (outside CWD)");
    let err_msg = result.unwrap_err().to_lowercase();
    assert!(
        err_msg.contains("outside") || err_msg.contains("not found"),
        "Error message should mention 'outside' or 'not found': {err_msg}"
    );
}

#[test]
fn tests_test_validate_path_rejects_absolute_path_outside_cwd() {
    check_rejects_etc_passwd();
}

#[test]
fn edit_tests_test_validate_path_rejects_absolute_path_outside_cwd() {
    check_rejects_etc_passwd();
}

#[test]
fn test_validate_path_in_dir_rejects_sibling_prefix_validate_path() {
    let result = existing_path_outcome(CRATE_ROOT, Ok("/etc/passwd".to_string()));
    assert!(result.is_err(), "validate_path must reject absolute paths outside CWD");
    // a sibling sharing the name prefix is outside as well
    assert!(existing_path_outcome(CRATE_ROOT, Ok("/work/aptu-coder-other/x".to_string())).is_err());
}

fn check_accepts_cargo_toml() {
    let result = existing_path_outcome(CRATE_ROOT, Ok(format!("{CRATE_ROOT}/Cargo.toml")));
    assert!(result.is_ok(), "validate_path should accept Cargo.toml (exists in CWD)");
}

#[test]
fn tests_test_validate_path_accepts_relative_path_in_cwd() {
    check_accepts_cargo_toml();
}

#[test]
fn edit_tests_test_validate_path_accepts_relative_path_in_cwd() {
    check_accepts_cargo_toml();
}

#[test]
fn tests_test_edit_overwrite_no_working_dir() {
    check_accepts_cargo_toml();
}

#[test]
fn edit_tests_test_edit_overwrite_no_working_dir() {
    check_accepts_cargo_toml();
}
