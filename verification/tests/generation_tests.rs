use moli::errors::GenError;
use moli::fs::{FsEntry, FsState};
use moli::generate::generate_from_config;
use moli::models::{CodeFile, Module, MoliConfig, Project};

fn b(s: &str) -> Vec<u8> {
    s.as_bytes().to_vec()
}

fn lines(ls: &[&str]) -> Vec<Vec<u8>> {
    ls.iter().map(|s| s.as_bytes().to_vec()).collect()
}

fn file(name: &str) -> CodeFile {
    CodeFile { name: b(name), vis: None }
}

fn module(name: &str, tree: Vec<Module>, files: Vec<CodeFile>) -> Module {
    Module { name: b(name), vis: None, tree, file: files }
}

fn project(name: &str, root: bool, lang: &str, tree: Vec<Module>, files: Vec<CodeFile>) -> Project {
    Project { name: b(name), root, lang: b(lang), file: files, tree }
}

fn scenario_config() -> MoliConfig {
    MoliConfig {
        projects: vec![project(
            "app",
            true,
            "python",
            vec![module("src", vec![module("domain", vec![], vec![file("model")])], vec![])],
            vec![],
        )],
    }
}

fn entry(fs: &FsState, path: &str) -> Option<FsEntry> {
    fs.get(&b(path)).cloned()
}

fn file_lines(fs: &FsState, path: &str) -> Vec<Vec<u8>> {
    match fs.get(&b(path)) {
        Some(FsEntry::File(c)) => c.clone(),
        other => panic!("expected a file at {}, got {:?}", path, other),
    }
}

#[test]
fn test_scenario_python_from_empty() {
    let mut fs = FsState::new();
    let config = scenario_config();
    assert!(generate_from_config(&mut fs, &config).is_ok());

    assert_eq!(entry(&fs, "src"), Some(FsEntry::Dir));
    assert_eq!(entry(&fs, "src/domain"), Some(FsEntry::Dir));
    // The protected code file is created empty.
    assert_eq!(file_lines(&fs, "src/domain/model.py"), lines(&[]));
    // Each directory's aggregator holds a marker pair with one export line
    // per child.
    assert_eq!(
        file_lines(&fs, "src/domain/__init__.py"),
        lines(&[
            "# This file is managed by moli.",
            "# start auto exported by moli.",
            "from . import model",
            "# end auto exported by moli.",
        ])
    );
    assert_eq!(
        file_lines(&fs, "src/__init__.py"),
        lines(&[
            "# This file is managed by moli.",
            "# start auto exported by moli.",
            "from . import domain",
            "# end auto exported by moli.",
        ])
    );
    // The root manifest is created once.
    assert_eq!(
        file_lines(&fs, "pyproject.toml"),
        lines(&["[project]", "name = \"app\"", "version = \"0.1.0\""])
    );
}

#[test]
fn test_scenario_second_run_changes_nothing() {
    let mut fs = FsState::new();
    let config = scenario_config();
    assert!(generate_from_config(&mut fs, &config).is_ok());
    let after_first = fs.clone();
    assert!(generate_from_config(&mut fs, &config).is_ok());
    assert_eq!(fs, after_first);
}

#[test]
fn test_protected_file_never_rewritten() {
    let mut fs = FsState::new();
    fs.set(&b("src/domain/model.py"), FsEntry::File(lines(&["class Model:", "    pass"])));
    let config = scenario_config();
    assert!(generate_from_config(&mut fs, &config).is_ok());
    assert_eq!(file_lines(&fs, "src/domain/model.py"), lines(&["class Model:", "    pass"]));

    // Even when the declared file list changes, existing bytes stay.
    let changed = MoliConfig {
        projects: vec![project(
            "app",
            true,
            "python",
            vec![module(
                "src",
                vec![module("domain", vec![], vec![file("model"), file("extra")])],
                vec![],
            )],
            vec![],
        )],
    };
    assert!(generate_from_config(&mut fs, &changed).is_ok());
    assert_eq!(file_lines(&fs, "src/domain/model.py"), lines(&["class Model:", "    pass"]));
    assert_eq!(file_lines(&fs, "src/domain/extra.py"), lines(&[]));
}

#[test]
fn test_marker_preservation() {
    let mut fs = FsState::new();
    fs.set(
        &b("src/__init__.py"),
        FsEntry::File(lines(&[
            "\"\"\"Hand written docstring.\"\"\"",
            "import sys",
            "# start auto exported by moli.",
            "stale line",
            "# end auto exported by moli.",
            "def helper():",
            "    return 1",
        ])),
    );
    let config = scenario_config();
    assert!(generate_from_config(&mut fs, &config).is_ok());
    assert_eq!(
        file_lines(&fs, "src/__init__.py"),
        lines(&[
            "\"\"\"Hand written docstring.\"\"\"",
            "import sys",
            "# start auto exported by moli.",
            "from . import domain",
            "# end auto exported by moli.",
            "def helper():",
            "    return 1",
        ])
    );
}

#[test]
fn test_manifest_create_once() {
    let mut fs = FsState::new();
    fs.set(&b("pyproject.toml"), FsEntry::File(lines(&["# my custom manifest"])));
    let config = scenario_config();
    assert!(generate_from_config(&mut fs, &config).is_ok());
    assert_eq!(file_lines(&fs, "pyproject.toml"), lines(&["# my custom manifest"]));

    // A changed project set still leaves the manifest untouched.
    let changed = MoliConfig {
        projects: vec![project(
            "renamed",
            true,
            "python",
            vec![module("src", vec![], vec![])],
            vec![],
        )],
    };
    assert!(generate_from_config(&mut fs, &changed).is_ok());
    assert_eq!(file_lines(&fs, "pyproject.toml"), lines(&["# my custom manifest"]));
}

#[test]
fn test_aggregator_convergence_order() {
    let mut fs = FsState::new();
    let config = MoliConfig {
        projects: vec![project(
            "app",
            true,
            "python",
            vec![module(
                "pkg",
                vec![module("a", vec![], vec![]), module("b", vec![], vec![]), module(
                    "c",
                    vec![],
                    vec![],
                )],
                vec![],
            )],
            vec![],
        )],
    };
    for _ in 0..3 {
        assert!(generate_from_config(&mut fs, &config).is_ok());
        assert_eq!(
            file_lines(&fs, "pkg/__init__.py"),
            lines(&[
                "# This file is managed by moli.",
                "# start auto exported by moli.",
                "from . import a",
                "from . import b",
                "from . import c",
                "# end auto exported by moli.",
            ])
        );
    }
}

#[test]
fn test_rust_aggregator_and_visibility() {
    let mut fs = FsState::new();
    let config = MoliConfig {
        projects: vec![project(
            "app",
            true,
            "rust",
            vec![Module {
                name: b("src"),
                vis: None,
                tree: vec![Module {
                    name: b("private_mod"),
                    vis: Some(b("pub(crate)")),
                    tree: vec![],
                    file: vec![],
                }],
                file: vec![file("model"), file("component.vue")],
            }],
            vec![],
        )],
    };
    assert!(generate_from_config(&mut fs, &config).is_ok());
    assert_eq!(file_lines(&fs, "src/model.rs"), lines(&[]));
    assert_eq!(file_lines(&fs, "src/component.vue"), lines(&[]));
    assert_eq!(
        file_lines(&fs, "src/mod.rs"),
        lines(&[
            "// This file is managed by moli.",
            "// start auto exported by moli.",
            "pub(crate) mod private_mod;",
            "pub mod model;",
            "pub mod component;",
            "// end auto exported by moli.",
        ])
    );
    assert_eq!(
        file_lines(&fs, "Cargo.toml"),
        lines(&["[package]", "name = \"app\"", "version = \"0.1.0\"", "edition = \"2021\""])
    );
}

#[test]
fn test_workspace_manifest_for_two_rust_projects() {
    let mut fs = FsState::new();
    let config = MoliConfig {
        projects: vec![
            project("backend", false, "rust", vec![module("src", vec![], vec![file("lib")])], vec![]),
            project("frontend", false, "rust", vec![module("src", vec![], vec![file("lib")])], vec![]),
        ],
    };
    assert!(generate_from_config(&mut fs, &config).is_ok());
    assert_eq!(entry(&fs, "backend"), Some(FsEntry::Dir));
    assert_eq!(entry(&fs, "frontend"), Some(FsEntry::Dir));
    assert_eq!(
        file_lines(&fs, "backend/Cargo.toml"),
        lines(&["[package]", "name = \"backend\"", "version = \"0.1.0\"", "edition = \"2021\""])
    );
    // The shared workspace manifest lists both members.
    assert_eq!(
        file_lines(&fs, "Cargo.toml"),
        lines(&["[workspace]", "members = [", "  \"backend\",", "  \"frontend\",", "]"])
    );
}

#[test]
fn test_no_workspace_for_single_or_mixed_projects() {
    let mut fs = FsState::new();
    let config = MoliConfig {
        projects: vec![
            project("backend", false, "rust", vec![], vec![]),
            project("frontend", false, "javascript", vec![], vec![]),
        ],
    };
    assert!(generate_from_config(&mut fs, &config).is_ok());
    // Only one rust project: no workspace manifest at the root.
    assert_eq!(entry(&fs, "Cargo.toml"), None);
    assert!(fs.get(&b("backend/Cargo.toml")).is_some());
    assert!(fs.get(&b("frontend/package.json")).is_some());
}

#[test]
fn test_typescript_barrel_and_manifest() {
    let mut fs = FsState::new();
    let config = MoliConfig {
        projects: vec![project(
            "web",
            true,
            "typescript",
            vec![module("src", vec![], vec![file("Button.tsx"), file("utils")])],
            vec![],
        )],
    };
    assert!(generate_from_config(&mut fs, &config).is_ok());
    assert_eq!(file_lines(&fs, "src/Button.tsx"), lines(&[]));
    assert_eq!(file_lines(&fs, "src/utils.ts"), lines(&[]));
    assert_eq!(
        file_lines(&fs, "src/index.ts"),
        lines(&[
            "// This file is managed by moli.",
            "// start auto exported by moli.",
            "export * from './Button';",
            "export * from './utils';",
            "// end auto exported by moli.",
        ])
    );
    assert_eq!(
        file_lines(&fs, "package.json"),
        lines(&["{", "  \"name\": \"web\",", "  \"version\": \"0.1.0\"", "}"])
    );
}

#[test]
fn test_deep_nesting_post_order() {
    let mut fs = FsState::new();
    let config = MoliConfig {
        projects: vec![project(
            "app",
            true,
            "python",
            vec![module(
                "a",
                vec![module("b", vec![module("c", vec![], vec![file("leaf")])], vec![])],
                vec![],
            )],
            vec![],
        )],
    };
    assert!(generate_from_config(&mut fs, &config).is_ok());
    assert_eq!(entry(&fs, "a/b/c"), Some(FsEntry::Dir));
    assert_eq!(file_lines(&fs, "a/b/c/leaf.py"), lines(&[]));
    // Each parent's aggregator reflects exactly its immediate children.
    assert_eq!(
        file_lines(&fs, "a/b/__init__.py"),
        lines(&[
            "# This file is managed by moli.",
            "# start auto exported by moli.",
            "from . import c",
            "# end auto exported by moli.",
        ])
    );
    assert_eq!(
        file_lines(&fs, "a/__init__.py"),
        lines(&[
            "# This file is managed by moli.",
            "# start auto exported by moli.",
            "from . import b",
            "# end auto exported by moli.",
        ])
    );
}

#[test]
fn test_unsupported_language_fails_before_writes() {
    let mut fs = FsState::new();
    let config = MoliConfig {
        projects: vec![project("app", true, "cobol", vec![module("src", vec![], vec![])], vec![])],
    };
    let r = generate_from_config(&mut fs, &config);
    assert_eq!(r, Err(GenError::UnsupportedLanguage(b("cobol"))));
    assert_eq!(entry(&fs, "src"), None);
}

#[test]
fn test_name_collision_between_module_and_file() {
    let mut fs = FsState::new();
    let config = MoliConfig {
        projects: vec![project(
            "app",
            true,
            "python",
            vec![module(
                "src",
                vec![module("domain", vec![], vec![])],
                vec![file("domain")],
            )],
            vec![],
        )],
    };
    let r = generate_from_config(&mut fs, &config);
    assert_eq!(r, Err(GenError::NameCollision(b("domain"))));
    assert_eq!(entry(&fs, "src"), None);
}

#[test]
fn test_name_collision_with_aggregator_filename() {
    let mut fs = FsState::new();
    // A declared file `mod` in a rust project resolves to `mod.rs`, the
    // name the engine reserves for the directory's aggregator.
    let config = MoliConfig {
        projects: vec![project(
            "app",
            true,
            "rust",
            vec![module("src", vec![], vec![file("mod")])],
            vec![],
        )],
    };
    let r = generate_from_config(&mut fs, &config);
    assert_eq!(r, Err(GenError::NameCollision(b("mod.rs"))));
    assert_eq!(entry(&fs, "src"), None);
}

#[test]
fn test_marker_mismatch_on_markerless_managed_file() {
    let mut fs = FsState::new();
    fs.set(&b("src/__init__.py"), FsEntry::File(lines(&["just some content"])));
    let config = scenario_config();
    let r = generate_from_config(&mut fs, &config);
    assert_eq!(r, Err(GenError::MarkerMismatch(b("src/__init__.py"))));
    // The corrupted file is left exactly as it was.
    assert_eq!(file_lines(&fs, "src/__init__.py"), lines(&["just some content"]));
}

#[test]
fn test_io_failure_on_wrong_entry_kind() {
    let mut fs = FsState::new();
    fs.set(&b("src"), FsEntry::File(lines(&["a file where a directory must go"])));
    let config = scenario_config();
    let r = generate_from_config(&mut fs, &config);
    assert_eq!(r, Err(GenError::IoFailure(b("src"))));
}

#[test]
fn test_empty_module_still_gets_directory_and_aggregator() {
    let mut fs = FsState::new();
    let config = MoliConfig {
        projects: vec![project(
            "app",
            true,
            "python",
            vec![module("empty_pkg", vec![], vec![])],
            vec![],
        )],
    };
    assert!(generate_from_config(&mut fs, &config).is_ok());
    assert_eq!(entry(&fs, "empty_pkg"), Some(FsEntry::Dir));
    assert_eq!(
        file_lines(&fs, "empty_pkg/__init__.py"),
        lines(&[
            "# This file is managed by moli.",
            "# start auto exported by moli.",
            "# end auto exported by moli.",
        ])
    );
}

#[test]
fn test_go_project_has_no_aggregator() {
    let mut fs = FsState::new();
    let config = MoliConfig {
        projects: vec![project(
            "app",
            true,
            "go",
            vec![module("pkg", vec![], vec![file("api")])],
            vec![file("main")],
        )],
    };
    assert!(generate_from_config(&mut fs, &config).is_ok());
    assert_eq!(file_lines(&fs, "main.go"), lines(&[]));
    assert_eq!(file_lines(&fs, "pkg/api.go"), lines(&[]));
    assert_eq!(file_lines(&fs, "go.mod"), lines(&["module app"]));
    // Go keeps no per-directory aggregator file.
    assert_eq!(entry(&fs, "pkg/doc.go"), None);
}
