use moli::init::{generate_new_moli_yml, get_main_file_name};
use moli::models::{CodeFile, Module, MoliConfig, Project};
use moli::parser::ConfigParser;

fn b(s: &str) -> Vec<u8> {
    s.as_bytes().to_vec()
}

fn lines(ls: &[&str]) -> Vec<Vec<u8>> {
    ls.iter().map(|s| s.as_bytes().to_vec()).collect()
}

fn file(name: &str) -> CodeFile {
    CodeFile { name: b(name), vis: None }
}

fn module(name: &str, tree: Vec<Module>, files: Vec<CodeFile>) -> Module {
    Module { name: b(name), vis: None, tree, file: files }
}

fn project(name: &str, root: bool, lang: &str, tree: Vec<Module>, files: Vec<CodeFile>) -> Project {
    Project { name: b(name), root, lang: b(lang), file: files, tree }
}

#[test]
fn test_parse_single_project() {
    let config = MoliConfig {
        projects: vec![project(
            "app",
            true,
            "rust",
            vec![module(
                "src",
                vec![module("domain", vec![], vec![file("model"), file("repository")])],
                vec![],
            )],
            vec![],
        )],
    };

    assert_eq!(config.projects().len(), 1);
    assert!(config.is_single_project());

    let project = config.root_project().unwrap();
    assert_eq!(project.name(), &b("app"));
    assert!(project.is_root());
    assert_eq!(project.language(), &b("rust"));
    assert_eq!(project.spec_tree().len(), 1);
}

#[test]
fn test_parse_multi_project() {
    let config = MoliConfig {
        projects: vec![
            project("backend", false, "rust", vec![module("src", vec![], vec![file("main")])], vec![]),
            project(
                "frontend",
                false,
                "javascript",
                vec![module("src", vec![], vec![file("index.js")])],
                vec![],
            ),
        ],
    };

    assert_eq!(config.projects().len(), 2);
    assert!(!config.is_single_project());
    assert_eq!(config.sub_projects().len(), 2);

    let backend = &config.projects()[0];
    assert_eq!(backend.name(), &b("backend"));
    assert!(!backend.is_root());
    assert_eq!(backend.language(), &b("rust"));

    let frontend = &config.projects()[1];
    assert_eq!(frontend.name(), &b("frontend"));
    assert_eq!(frontend.language(), &b("javascript"));
}

#[test]
fn test_file_extension_handling() {
    let config = MoliConfig {
        projects: vec![project(
            "app",
            false,
            "rust",
            vec![module("src", vec![], vec![file("model"), file("component.vue")])],
            vec![],
        )],
    };
    let project = &config.projects()[0];
    let files = project.spec_tree()[0].files();

    // Test auto extension
    assert_eq!(files[0].filename_with_extension(&b("rust")), b("model.rs"));

    // Test explicit extension
    assert_eq!(files[1].filename_with_extension(&b("rust")), b("component.vue"));
}

#[test]
fn test_extension_per_language() {
    assert_eq!(file("model").filename_with_extension(&b("python")), b("model.py"));
    assert_eq!(file("model").filename_with_extension(&b("go")), b("model.go"));
    assert_eq!(file("model").filename_with_extension(&b("typescript")), b("model.ts"));
    assert_eq!(file("model").filename_with_extension(&b("javascript")), b("model.js"));
    assert_eq!(file("model").filename_with_extension(&b("markdown")), b("model.md"));
    // Unknown tags fall back to txt.
    assert_eq!(file("model").filename_with_extension(&b("cobol")), b("model.txt"));
    // A name with a dot is kept whatever the language.
    assert_eq!(file("Button.tsx").filename_with_extension(&b("python")), b("Button.tsx"));
}

#[test]
fn test_module_accessors() {
    let m = module("domain", vec![module("nested", vec![], vec![])], vec![file("model")]);
    assert_eq!(m.name(), &b("domain"));
    assert!(m.has_subtree());
    assert!(m.has_files());
    assert_eq!(m.subtree().len(), 1);
    assert_eq!(m.files().len(), 1);
    assert!(m.pub_setting().is_none());

    let leaf = module("leaf", vec![], vec![]);
    assert!(!leaf.has_subtree());
    assert!(!leaf.has_files());

    let vised = Module { name: b("x"), vis: Some(b("pub(crate)")), tree: vec![], file: vec![] };
    assert_eq!(vised.pub_setting(), Some(&b("pub(crate)")));
}

#[test]
fn test_sub_projects_skip_root() {
    let config = MoliConfig {
        projects: vec![
            project("app", true, "rust", vec![], vec![]),
            project("lib1", false, "rust", vec![], vec![]),
            project("lib2", false, "go", vec![], vec![]),
        ],
    };
    let subs = config.sub_projects();
    assert_eq!(subs.len(), 2);
    assert_eq!(subs[0].name(), &b("lib1"));
    assert_eq!(subs[1].name(), &b("lib2"));
}

#[test]
fn test_default_config_path() {
    assert_eq!(ConfigParser::default_config_path(), "moli.yml");
}

#[test]
fn test_get_main_file_name() {
    assert_eq!(get_main_file_name(&b("rust"), true), b("main"));
    assert_eq!(get_main_file_name(&b("rust"), false), b("lib"));
    assert_eq!(get_main_file_name(&b("go"), true), b("main"));
    assert_eq!(get_main_file_name(&b("python"), false), b("main"));
    assert_eq!(get_main_file_name(&b("typescript"), true), b("index"));
    assert_eq!(get_main_file_name(&b("javascript"), true), b("index"));
    assert_eq!(get_main_file_name(&b("any"), true), b("README.md"));
}

#[test]
fn test_generate_new_moli_yml_rust() {
    let got = generate_new_moli_yml(&b("app_1"), &b("rust"));
    assert_eq!(
        got,
        lines(&[
            "- name: app_1",
            "  root: true",
            "  lang: rust",
            "  tree:",
            "    - name: src",
            "      file:",
            "        - name: main",
        ])
    );
}

#[test]
fn test_replace_first_project_name_with_current_dir() {
    let existing = lines(&[
        "- name: app_1",
        "  root: true",
        "  lang: rust",
        "  tree:",
        "    - name: src",
    ]);
    let got = moli::init::replace_first_project_name_with_current_dir(&existing);
    assert_eq!(got, lines(&["- name: .", "  lang: rust", "  tree:", "    - name: src"]));

    // Without a root project nothing changes.
    let plain = lines(&["- name: app_1", "  lang: rust"]);
    assert_eq!(moli::init::replace_first_project_name_with_current_dir(&plain), plain);
}

#[test]
fn test_append_to_existing_moli_yml() {
    let existing = lines(&["- name: app_1", "  root: true", "  lang: rust"]);
    let got = moli::init::append_to_existing_moli_yml(&existing, &b("app_2"), &b("go"));
    assert_eq!(
        got,
        lines(&[
            "- name: .",
            "  lang: rust",
            "",
            "- name: app_2",
            "  lang: go",
            "  file:",
            "    - name: main",
        ])
    );
}

#[test]
fn test_generate_new_moli_yml_go() {
    let got = generate_new_moli_yml(&b("app_1"), &b("go"));
    assert_eq!(
        got,
        lines(&["- name: app_1", "  root: true", "  lang: go", "  file:", "    - name: main"])
    );
}
