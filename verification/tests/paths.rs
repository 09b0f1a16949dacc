//! Reported paths and baseline keys: forward slashes everywhere, relative to their domain.

use bonsai_lint::paths::{display_path, normalize_key, relative, resolve, split_parent};

#[test]
fn reported_paths_use_one_separator_on_every_platform() {
    assert_eq!(display_path("./src/a.php"), "src/a.php");
    assert_eq!(display_path(r"packages\web\src\a.ts"), "packages/web/src/a.ts");
    assert_eq!(display_path("."), ".");
}

#[test]
fn a_scan_from_the_current_directory_drops_its_dot() {
    assert_eq!(display_path("./a/./b.php"), "a/b.php");
    assert_eq!(display_path("/abs/./c.go"), "/abs/c.go");
    assert_eq!(display_path(""), ".");
}

#[test]
fn a_key_is_relative_to_its_domain_root() {
    assert_eq!(normalize_key("/repo/packages/web/src/a.ts", "/repo/packages/web"), "src/a.ts");
    assert_eq!(normalize_key("/repo/src/a.php", "/repo"), "src/a.php");
    assert_eq!(normalize_key("/elsewhere/a.php", "/repo"), "/elsewhere/a.php");
}

#[test]
fn a_key_survives_a_checkout_elsewhere() {
    assert_eq!(
        normalize_key("/home/ci/work/src/a.php", "/home/ci/work"),
        normalize_key("/Users/dev/project/src/a.php", "/Users/dev/project"),
    );
}

#[test]
fn a_root_holds_only_whole_components() {
    assert_eq!(relative("/repo/web/a.ts", "/repo/web"), "a.ts");
    assert_eq!(relative("/repo/website/a.ts", "/repo/web"), "/repo/website/a.ts");
}

#[test]
fn a_buffer_not_yet_on_disk_resolves_through_its_directory() {
    assert_eq!(
        split_parent("/work/src/new.php"),
        Some(("/work/src".to_string(), "new.php".to_string()))
    );
    assert_eq!(split_parent("/"), None);
    assert_eq!(resolve(Some("/real/a.php"), "/link/a.php", None), "/real/a.php");
    assert_eq!(resolve(None, "/link/new.php", Some("/real")), "/real/new.php");
    assert_eq!(resolve(None, "/link/new.php", None), "/link/new.php");
}

#[test]
fn a_key_uses_forward_slashes_even_for_a_windows_path() {
    assert_eq!(normalize_key(r"src\legacy\a.php", "/repo"), "src/legacy/a.php");
}
