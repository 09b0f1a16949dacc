//! Configuration as policy: domains, thresholds, exclusions, and the warnings a config earns.

use bonsai_lint::policy::{
    ancestors, check_patterns, choose_root, containing_directory, default_domain, domain_from,
    pattern_depth, warn_unknown_languages, workspace_from, ConfigError, ConfigFile,
    LanguageSection, Workspace,
};

fn known() -> Vec<&'static str> {
    vec!["php", "typescript"]
}

fn section(threshold: u32) -> LanguageSection {
    LanguageSection { threshold: Some(threshold) }
}

#[test]
fn a_nearer_domain_wins_even_over_a_more_specific_root_setting() {
    let mut root = ConfigFile::empty();
    root.threshold = Some(15);
    root.languages = vec![("typescript".to_string(), section(30))];
    let mut own = ConfigFile::empty();
    own.threshold = Some(5);

    let domain = domain_from(&own, "/repo/web", &root, "web", &known(), Vec::new());

    assert_eq!(domain.threshold_for("typescript"), 5);
    assert_eq!(domain.threshold_for("php"), 5);
    assert_eq!(domain.name, "web");
    assert_eq!(domain.baseline, "/repo/web/.bonsai-lint-baseline.json");
}

#[test]
fn an_inherited_language_section_applies_where_the_domain_is_silent() {
    let mut root = ConfigFile::empty();
    root.languages = vec![("typescript".to_string(), section(30))];
    root.toplevel = Some(false);
    let mut own = ConfigFile::empty();
    own.name = Some("web".to_string());
    own.baseline = Some("ci/baseline.json".to_string());

    let domain = domain_from(&own, "/repo/web", &root, "fallback", &known(), Vec::new());

    assert_eq!(domain.threshold_for("typescript"), 30);
    assert_eq!(domain.threshold_for("php"), 15);
    assert!(!domain.toplevel);
    assert_eq!(domain.baseline, "/repo/web/ci/baseline.json");
}

#[test]
fn a_nested_domain_owns_the_files_below_it() {
    let mut workspace = Workspace::zero_config("/repo");
    let mut web = default_domain("/repo/packages/web");
    web.name = "web".to_string();
    workspace.domains.push(web);

    assert_eq!(workspace.domain_for("/repo/packages/web/src/a.ts"), 1);
    assert_eq!(workspace.domain_for("/repo/packages/website/a.ts"), 0);
    assert_eq!(workspace.domain_for("/elsewhere/a.ts"), 0);
}

#[test]
fn exclusions_match_relative_to_their_own_root() {
    let mut config = ConfigFile::empty();
    config.exclude = Some(vec!["*.generated.ts".to_string(), "vendor/**".to_string()]);
    let mut workspace = match workspace_from("/repo", &config, &known()) {
        Ok(workspace) => workspace,
        Err(error) => panic!("{}", error.message()),
    };
    let mut web = default_domain("/repo/web");
    web.exclude = vec!["generated/**".to_string()];
    workspace.domains.push(web);

    assert!(workspace.is_excluded("/repo/a.generated.ts"));
    assert!(!workspace.is_excluded("/repo/src/a.generated.ts"));
    assert!(workspace.is_excluded("/repo/vendor/lib/deep/x.php"));
    assert!(workspace.is_excluded("/repo/web/generated/a.ts"));
    assert!(!workspace.is_excluded("/repo/api/generated/a.ts"));
}

#[test]
fn a_negated_or_broken_pattern_is_refused() {
    match check_patterns(&vec!["ok/**".to_string(), "!keep".to_string()]) {
        Err(ConfigError::Glob { pattern, error }) => {
            assert_eq!(pattern, "!keep");
            assert_eq!(error, "negated patterns are not supported");
        }
        _ => panic!("a negation must be refused"),
    }
    assert!(matches!(check_patterns(&vec!["a[".to_string()]), Err(ConfigError::Glob { .. })));
    assert!(check_patterns(&vec!["packages/*".to_string()]).is_ok());
    let error = ConfigError::Glob { pattern: "a[".to_string(), error: "unclosed".to_string() };
    assert_eq!(error.message(), "invalid glob `a[`: unclosed");
}

#[test]
fn a_walk_for_domains_stops_at_the_deepest_pattern() {
    assert_eq!(pattern_depth(&vec!["packages/*".to_string(), "/apps/x/y/".to_string()]), Some(3));
    assert_eq!(pattern_depth(&vec!["services/**/app".to_string()]), None);
    assert_eq!(pattern_depth(&Vec::new()), Some(0));
}

#[test]
fn an_unknown_language_section_is_warned_about() {
    let mut config = ConfigFile::empty();
    config.languages = vec![("php".to_string(), section(3)), ("cobol".to_string(), section(9))];
    let mut warnings = Vec::new();

    warn_unknown_languages(&config, &known(), "/repo", &mut warnings);

    assert_eq!(
        warnings,
        vec!["/repo/bonsai-lint.toml: unknown language section `[cobol]`, ignoring".to_string()]
    );
}

#[test]
fn a_declared_domain_is_named_by_its_path_unless_it_names_itself() {
    let mut root = ConfigFile::empty();
    root.domains = Some(vec!["packages/*".to_string()]);
    let mut workspace = match workspace_from("/repo", &root, &known()) {
        Ok(workspace) => workspace,
        Err(error) => panic!("{}", error.message()),
    };
    let mut child = ConfigFile::empty();
    child.domains = Some(Vec::new());

    assert!(workspace.declare(&root, "/repo/packages/api", &child, &known()).is_ok());
    assert_eq!(workspace.domains[1].name, "packages/api");
    assert_eq!(
        workspace.warnings,
        vec!["/repo/packages/api/bonsai-lint.toml: `domains` is only read from the root config, ignoring".to_string()]
    );
    assert!(Workspace::is_declared(&vec!["packages/*".to_string()], "packages/api"));
    assert!(!Workspace::is_declared(&vec!["packages/*".to_string()], "packages/api/src"));
    assert!(!Workspace::is_declared(&vec!["packages/*".to_string()], ""));
    assert_eq!(
        workspace.undeclared_config_warnings(&vec!["/repo/packages/api".to_string(), "/repo/tools".to_string()]),
        vec!["/repo/tools/bonsai-lint.toml: not a declared domain, ignoring (add it to `domains` in the root config)".to_string()]
    );
}

#[test]
fn discovery_walks_up_and_picks_the_outermost_declaring_config() {
    assert_eq!(ancestors("/a/b"), vec!["/a/b", "/a", "/"]);
    assert_eq!(ancestors("a/b"), vec!["a/b", "a", ""]);
    assert_eq!(containing_directory("/repo/src/Foo.php", false), "/repo/src");
    assert_eq!(containing_directory("Foo.php", false), ".");
    assert_eq!(containing_directory("/repo/src", true), "/repo/src");

    let mut declaring = ConfigFile::empty();
    declaring.domains = Some(vec!["packages/*".to_string()]);
    let found = vec![
        ("/repo/packages/web".to_string(), ConfigFile::empty()),
        ("/repo".to_string(), declaring),
        ("/".to_string(), ConfigFile::empty()),
    ];
    assert_eq!(choose_root(&found), Some(1));
    assert_eq!(choose_root(&vec![("/x".to_string(), ConfigFile::empty())]), Some(0));
    assert_eq!(choose_root(&Vec::new()), None);
}

fn root_declaring(pattern: &str) -> ConfigFile {
    let mut root = ConfigFile::empty();
    root.domains = Some(vec![pattern.to_string()]);
    root
}

fn named(name: &str) -> ConfigFile {
    let mut config = ConfigFile::empty();
    config.name = Some(name.to_string());
    config
}

#[test]
fn a_misspelt_language_section_suggests_the_language() {
    let mut config = ConfigFile::empty();
    config.languages = vec![("typscript".to_string(), section(3))];

    let workspace = match workspace_from("/repo", &config, &known()) {
        Ok(workspace) => workspace,
        Err(error) => panic!("{}", error.message()),
    };

    assert!(
        workspace.warnings.iter().any(
            |warning| warning.contains("`[typscript]`, ignoring; did you mean `[typescript]`?")
        ),
        "{:?}",
        workspace.warnings
    );
}

#[test]
fn a_far_fetched_language_section_gets_no_guess() {
    let mut config = ConfigFile::empty();
    config.languages = vec![("ruby".to_string(), section(3))];
    let mut warnings = Vec::new();

    warn_unknown_languages(&config, &known(), "/repo", &mut warnings);

    assert_eq!(
        warnings,
        vec!["/repo/bonsai-lint.toml: unknown language section `[ruby]`, ignoring".to_string()]
    );
}

#[test]
fn two_domains_with_one_name_are_rejected() {
    let root = root_declaring("apps/*");
    let mut workspace = workspace_from("/repo", &root, &known()).ok().expect("root config");
    assert!(workspace.declare(&root, "/repo/apps/admin", &named("shop"), &known()).is_ok());

    let error = match workspace.declare(&root, "/repo/apps/web", &named("shop"), &known()) {
        Err(error) => error.message(),
        Ok(()) => panic!("a second `shop` was accepted"),
    };

    assert!(error.contains("apps/web/bonsai-lint.toml"), "{error}");
    assert!(error.contains("`shop` is also the name of `apps/admin`"), "{error}");
    assert_eq!(workspace.domains.len(), 2);
}

#[test]
fn a_domain_named_root_collides_with_the_workspace_root() {
    let root = root_declaring("apps/*");
    let mut workspace = workspace_from("/repo", &root, &known()).ok().expect("root config");

    let error = match workspace.declare(&root, "/repo/apps/web", &named("root"), &known()) {
        Err(error) => error.message(),
        Ok(()) => panic!("a domain named `root` was accepted"),
    };

    assert!(error.contains("`root` is also the name of the workspace root"), "{error}");
}

#[test]
fn a_negated_exclude_is_refused_rather_than_ignored() {
    let mut config = ConfigFile::empty();
    config.exclude = Some(vec!["!vendor/keep".to_string()]);

    match workspace_from("/repo", &config, &known()) {
        Err(ConfigError::Glob { pattern, error }) => {
            assert_eq!(pattern, "!vendor/keep");
            assert!(error.contains("negated"), "{error}");
        }
        Err(other) => panic!("expected a glob error, got {}", other.message()),
        Ok(_) => panic!("expected a glob error, got a workspace"),
    }
}

#[test]
fn the_nearest_and_most_specific_threshold_wins() {
    let mut root = root_declaring("packages/*");
    root.threshold = Some(10);
    root.languages = vec![("typescript".to_string(), section(20))];
    let mut web = ConfigFile::empty();
    web.threshold = Some(5);
    let mut workspace = workspace_from("/repo", &root, &known()).ok().expect("root config");
    assert!(workspace.declare(&root, "/repo/packages/api", &ConfigFile::empty(), &known()).is_ok());
    assert!(workspace.declare(&root, "/repo/packages/web", &web, &known()).is_ok());

    let by_name = |name: &str| {
        workspace
            .domains
            .iter()
            .find(|domain| domain.name == name)
            .expect("domain exists")
    };

    assert_eq!(by_name("root").threshold_for("typescript"), 20);
    assert_eq!(by_name("root").threshold_for("php"), 10);
    assert_eq!(by_name("packages/web").threshold_for("typescript"), 5);
    assert_eq!(by_name("packages/web").threshold_for("php"), 5);
    assert_eq!(by_name("packages/api").threshold_for("typescript"), 20);
    assert_eq!(by_name("packages/api").threshold_for("php"), 10);
}

#[test]
fn domain_globs_do_not_cross_directory_separators() {
    let patterns = vec!["packages/*".to_string()];
    assert!(Workspace::is_declared(&patterns, "packages/web"));
    assert!(Workspace::is_declared(&patterns, "packages/api"));
    assert!(!Workspace::is_declared(&patterns, "packages/web/src"));
    assert!(!Workspace::is_declared(&patterns, "packages/web/src/deep"));

    let root = root_declaring("packages/*");
    let mut workspace = workspace_from("/repo", &root, &known()).ok().expect("root config");
    assert!(workspace.declare(&root, "/repo/packages/api", &ConfigFile::empty(), &known()).is_ok());
    assert!(workspace.declare(&root, "/repo/packages/web", &ConfigFile::empty(), &known()).is_ok());

    let names: Vec<&str> = workspace.domains.iter().map(|domain| domain.name.as_str()).collect();
    assert_eq!(names, vec!["root", "packages/api", "packages/web"]);
    let web = workspace.domain_for("/repo/packages/web/src/deep/index.ts");
    assert_eq!(workspace.domains[web].name, "packages/web");
    assert_eq!(workspace.domains[web].baseline, "/repo/packages/web/.bonsai-lint-baseline.json");
}
