use semifold::config::{
    AssetConfig, CommandConfig, Config, PackageConfig, PreCheckConfig, ResolverConfig, StdioType,
    BranchesConfig,
};
use semifold::error::ResolveError;
use semifold::resolver::{
    command_skipped, get_changesets, has_md_extension, publish_decision, sort_packages,
    PublishDecision, ResolverType,
};
use semifold::resolver::nodejs::NodejsResolver;
use semifold::resolver::python::PythonResolver;
use semifold::resolver::cpp::CppResolver;
use semifold::resolver::rust::{CargoWorkspacePlan, RustResolver};
use semifold::version::VersionMode;

fn pkg(eco: ResolverType) -> PackageConfig {
    PackageConfig {
        path: ".".to_string(),
        resolver: eco,
        version_mode: VersionMode::Semantic,
        assets: Vec::new(),
    }
}

#[test]
fn dependency_comes_out_before_its_dependent() {
    let mut packages = vec![
        ("app".to_string(), pkg(ResolverType::Rust)),
        ("lib".to_string(), pkg(ResolverType::Rust)),
    ];
    let deps = vec![
        ("app".to_string(), vec!["lib".to_string()]),
        ("lib".to_string(), Vec::new()),
    ];
    sort_packages(&mut packages, ResolverType::Rust, &deps);
    assert_eq!(packages[0].0, "lib");
    assert_eq!(packages[1].0, "app");
}

#[test]
fn unrelated_packages_keep_their_order() {
    let mut packages = vec![
        ("one".to_string(), pkg(ResolverType::Rust)),
        ("two".to_string(), pkg(ResolverType::Rust)),
    ];
    let deps = vec![
        ("one".to_string(), Vec::new()),
        ("two".to_string(), Vec::new()),
    ];
    sort_packages(&mut packages, ResolverType::Rust, &deps);
    assert_eq!(packages[0].0, "one");
    assert_eq!(packages[1].0, "two");
}

#[test]
fn cross_ecosystem_pairs_are_left_alone() {
    let mut packages = vec![
        ("app".to_string(), pkg(ResolverType::Nodejs)),
        ("lib".to_string(), pkg(ResolverType::Rust)),
    ];
    let deps = vec![("app".to_string(), vec!["lib".to_string()])];
    sort_packages(&mut packages, ResolverType::Rust, &deps);
    assert_eq!(packages[0].0, "app");
    assert_eq!(packages[1].0, "lib");
}

#[test]
fn rust_resolve_reads_name_and_version() {
    let manifest = "[package]\nname = \"demo\"\nversion = \"0.3.1\"\n\n[dependencies]\nserde = \"1\"\n";
    let p = RustResolver::resolve("crates/demo", Some(manifest)).unwrap();
    assert_eq!(p.name, "demo");
    assert_eq!(p.version, "0.3.1");
    assert_eq!(p.path, "crates/demo");
    assert!(!p.private);
}

#[test]
fn rust_resolve_error_kinds() {
    assert!(matches!(
        RustResolver::resolve("d", None),
        Err(ResolveError::FileOrDirNotFound { .. })
    ));
    assert!(matches!(
        RustResolver::resolve("d", Some("not = toml = at all")),
        Err(ResolveError::ParseError { .. })
    ));
    assert!(matches!(
        RustResolver::resolve("d", Some("[package]\nname = \"x\"\n")),
        Err(ResolveError::InvalidConfig { .. })
    ));
}

#[test]
fn rust_bump_rewrites_only_the_version() {
    let manifest = "# top comment\n[package]\nname = \"demo\"\nversion = \"0.3.1\" # keep me\n";
    let out = RustResolver::bump(manifest, "0.4.0").unwrap();
    assert!(out.contains("version = \"0.4.0\""));
    assert!(out.contains("# top comment"));
    assert!(out.contains("name = \"demo\""));
    assert!(!out.contains("0.3.1"));
}

#[test]
fn rust_workspace_plan_reads_members() {
    let ws = "[workspace]\nmembers = [\"crates/*\"]\n";
    match RustResolver::resolve_all_plan(Some(ws)).unwrap() {
        CargoWorkspacePlan::Members(ms) => assert_eq!(ms, vec!["crates/*".to_string()]),
        other => panic!("expected members, got {:?}", other),
    }
    assert!(matches!(
        RustResolver::resolve_all_plan(Some("[package]\nname = \"a\"\nversion = \"1.0.0\"\n")),
        Ok(CargoWorkspacePlan::Single)
    ));
    assert!(matches!(
        RustResolver::resolve_all_plan(None),
        Ok(CargoWorkspacePlan::NoManifest)
    ));
}

#[test]
fn rust_dependency_names_come_from_the_manifest() {
    let manifest = "[package]\nname = \"a\"\nversion = \"1.0.0\"\n[dependencies]\nfoo = \"1\"\nbar = { version = \"2\" }\n";
    let deps = RustResolver::dependency_names(manifest);
    assert_eq!(deps, vec!["foo".to_string(), "bar".to_string()]);
}

#[test]
fn rust_members_skip_failures_and_keep_order() {
    let good_a = "[package]\nname = \"a\"\nversion = \"1.0.0\"\n";
    let good_b = "[package]\nname = \"b\"\nversion = \"2.0.0\"\n";
    let pairs = vec![
        ("crates/a".to_string(), Some(good_a.to_string())),
        ("crates/missing".to_string(), None),
        ("crates/broken".to_string(), Some("not = toml = at all".to_string())),
        ("crates/b".to_string(), Some(good_b.to_string())),
    ];
    let ps = RustResolver::resolve_many(&pairs);
    assert_eq!(ps.len(), 2);
    assert_eq!(ps[0].name, "a");
    assert_eq!(ps[0].path, "crates/a");
    assert_eq!(ps[1].name, "b");
    assert_eq!(ps[1].version, "2.0.0");
    assert!(!ps[1].private);
}

#[test]
fn nodejs_members_skip_failures_and_keep_order() {
    let good = "{\"name\": \"web\", \"version\": \"1.0.0\", \"private\": true}";
    let pairs = vec![
        ("apps/missing".to_string(), None),
        ("apps/web".to_string(), Some(good.to_string())),
        ("apps/broken".to_string(), Some("{ nope".to_string())),
    ];
    let ps = NodejsResolver::resolve_many(&pairs);
    assert_eq!(ps.len(), 1);
    assert_eq!(ps[0].name, "web");
    assert_eq!(ps[0].path, "apps/web");
    assert!(ps[0].private);
}

#[test]
fn nodejs_resolve_reads_the_manifest() {
    let manifest = "{\"name\": \"web\", \"version\": \"2.0.0\", \"private\": true}";
    let p = NodejsResolver::resolve("packages/web", Some(manifest)).unwrap();
    assert_eq!(p.name, "web");
    assert_eq!(p.version, "2.0.0");
    assert!(p.private);
}

#[test]
fn nodejs_bump_sets_the_version_field() {
    let manifest = "{\"name\": \"web\", \"version\": \"2.0.0\"}";
    let out = NodejsResolver::bump(manifest, "2.1.0").unwrap();
    assert!(out.contains("\"version\": \"2.1.0\""));
    assert!(!out.contains("2.0.0"));
}

#[test]
fn nodejs_workspace_patterns_prefer_pnpm() {
    let manifest = "{\"name\": \"root\", \"version\": \"1.0.0\", \"workspaces\": [\"packages/*\"]}";
    let pnpm = "packages:\n  - \"apps/*\"\n";
    let via_pnpm = NodejsResolver::workspace_patterns(manifest, Some(pnpm)).unwrap();
    assert_eq!(via_pnpm, vec!["apps/*".to_string()]);
    let via_manifest = NodejsResolver::workspace_patterns(manifest, None).unwrap();
    assert_eq!(via_manifest, vec!["packages/*".to_string()]);
}

#[test]
fn nodejs_dependency_names_span_all_three_tables() {
    let manifest = "{\"name\": \"w\", \"version\": \"1.0.0\", \"dependencies\": {\"a\": \"1\"}, \"devDependencies\": {\"b\": \"1\"}, \"peerDependencies\": {\"c\": \"1\"}}";
    let deps = NodejsResolver::dependency_names(manifest);
    assert_eq!(deps, vec!["a".to_string(), "b".to_string(), "c".to_string()]);
}

#[test]
fn pyproject_resolve_prefers_pep621() {
    let manifest = "[project]\nname = \"tool\"\nversion = \"0.9.0\"\n";
    let p = PythonResolver::resolve_pyproject("py/tool", Some(manifest), None).unwrap();
    assert_eq!(p.name, "tool");
    assert_eq!(p.version, "0.9.0");
}

#[test]
fn pyproject_dynamic_version_uses_the_source() {
    let manifest = "[project]\nname = \"tool\"\ndynamic = [\"version\"]\n";
    let p = PythonResolver::resolve_pyproject("py", Some(manifest), Some("3.2.1")).unwrap();
    assert_eq!(p.version, "3.2.1");
    let q = PythonResolver::resolve_pyproject("py", Some(manifest), None).unwrap();
    assert_eq!(q.version, "0.0.0");
}

#[test]
fn pyproject_poetry_fallback() {
    let manifest = "[tool.poetry]\nname = \"legacy\"\nversion = \"1.1.0\"\n";
    let p = PythonResolver::resolve_pyproject("py", Some(manifest), None).unwrap();
    assert_eq!(p.name, "legacy");
    assert_eq!(p.version, "1.1.0");
    let bad = "[tool.other]\nx = 1\n";
    assert!(matches!(
        PythonResolver::resolve_pyproject("py", Some(bad), None),
        Err(ResolveError::InvalidConfig { .. })
    ));
}

#[test]
fn setup_cfg_fallback_reads_metadata() {
    let cfg = "[metadata]\nname = classic\nversion = 0.5.0\n\n[options]\nzip_safe = false\n";
    let p = PythonResolver::resolve_setup_cfg("py", Some(cfg)).unwrap();
    assert_eq!(p.name, "classic");
    assert_eq!(p.version, "0.5.0");
    let noname = "[metadata]\nauthor = someone\n";
    assert!(matches!(
        PythonResolver::resolve_setup_cfg("py", Some(noname)),
        Err(ResolveError::InvalidConfig { .. })
    ));
}

#[test]
fn extract_version_reads_static_literals_only() {
    let src = "import os\n__version__ = version(\"pkg\")\n__version__ = \"4.5.6\"\n";
    assert_eq!(PythonResolver::extract_version_from_content(src), Some("4.5.6".to_string()));
    assert_eq!(
        PythonResolver::extract_version_from_content("__version__ = '7.8.9'\n"),
        Some("7.8.9".to_string())
    );
    assert_eq!(
        PythonResolver::extract_version_from_content("__version__ = get_version()\n"),
        None
    );
}

#[test]
fn extract_version_falls_back_to_cargo_then_hatch() {
    let cargo = "[package]\nname = \"x\"\nversion = \"2.2.2\"\n";
    let hatch = "__version__ = \"3.3.3\"\n";
    let none: Vec<Option<String>> = vec![None, None];
    assert_eq!(
        PythonResolver::extract_version_from_sources(&none, Some(cargo), Some(hatch)),
        Some("2.2.2".to_string())
    );
    assert_eq!(
        PythonResolver::extract_version_from_sources(&none, None, Some(hatch)),
        Some("3.3.3".to_string())
    );
    let with_file = vec![Some("__version__ = \"1.1.1\"\n".to_string())];
    assert_eq!(
        PythonResolver::extract_version_from_sources(&with_file, Some(cargo), None),
        Some("1.1.1".to_string())
    );
}

#[test]
fn update_init_rewrites_static_assignments() {
    let src = "from x import y\n__version__ = \"0.1.0\"\n__version__ = version(\"pkg\")\n";
    let (out, updated) = PythonResolver::update_init_version(src, "0.2.0");
    assert!(updated);
    assert_eq!(
        out,
        "from x import y\n__version__ = \"0.2.0\"\n__version__ = version(\"pkg\")\n"
    );
    let (same, touched) = PythonResolver::update_init_version("print(1)\n", "0.2.0");
    assert!(!touched);
    assert_eq!(same, "print(1)\n");
}

#[test]
fn setup_cfg_bump_rewrites_version_lines() {
    let cfg = "[metadata]\nname = classic\nversion = 0.5.0";
    let out = PythonResolver::bump_setup_cfg(cfg, "0.6.0");
    assert_eq!(out, "[metadata]\nname = classic\nversion = 0.6.0");
}

#[test]
fn pyproject_bump_touches_project_and_poetry() {
    let manifest = "[project]\nname = \"t\"\nversion = \"1.0.0\"\n\n[tool.poetry]\nname = \"t\"\nversion = \"1.0.0\"\n";
    let out = PythonResolver::bump_pyproject(manifest, "1.1.0").unwrap();
    assert!(!out.contains("1.0.0"));
    assert_eq!(out.matches("1.1.0").count(), 2);
}

#[test]
fn python_dependency_names_strip_constraints() {
    let manifest = "[project]\nname = \"t\"\ndependencies = [\"requests>=2.0.0\", \"flask\"]\n\n[tool.poetry.dependencies]\npython = \"^3.9\"\nclick = \"8\"\n";
    let deps = PythonResolver::parse_dependencies(Some(manifest)).unwrap();
    assert_eq!(deps, vec!["requests".to_string(), "flask".to_string(), "click".to_string()]);
    assert!(PythonResolver::parse_dependencies(None).unwrap().is_empty());
}

#[test]
fn hatch_version_path_is_read_from_the_tool_table() {
    let manifest = "[project]\nname = \"t\"\ndynamic = [\"version\"]\n\n[tool.hatch.version]\npath = \"src/t/about.py\"\n";
    assert_eq!(
        PythonResolver::hatch_version_path(manifest),
        Some("src/t/about.py".to_string())
    );
    assert_eq!(PythonResolver::hatch_version_path("[project]\nname = \"t\"\n"), None);
}

#[test]
fn module_dir_name_replaces_dashes() {
    assert_eq!(PythonResolver::module_dir_name("my-cool-pkg"), "my_cool_pkg");
}

#[test]
fn version_file_candidates_are_ordered() {
    let c = PythonResolver::version_file_candidates("py/tool", "tool");
    assert_eq!(
        c,
        vec![
            "py/tool/tool/__init__.py".to_string(),
            "py/tool/src/tool/__init__.py".to_string(),
            "py/tool/tool/__version__.py".to_string(),
            "py/tool/src/tool/__version__.py".to_string(),
        ]
    );
}

#[test]
fn publish_decisions_respect_private_and_dry_run() {
    assert_eq!(publish_decision(true, false), PublishDecision::SkipPrivate);
    assert_eq!(publish_decision(true, true), PublishDecision::SkipPrivate);
    assert_eq!(publish_decision(false, true), PublishDecision::SkipDryRun);
    assert_eq!(publish_decision(false, false), PublishDecision::Run);
}

#[test]
fn commands_can_opt_into_dry_runs() {
    let cmd = CommandConfig {
        command: "cargo".to_string(),
        args: Some(vec!["publish".to_string()]),
        extra_env: Vec::new(),
        stdout: StdioType::Inherit,
        stderr: StdioType::Inherit,
        dry_run: None,
    };
    assert!(command_skipped(&cmd, true));
    assert!(!command_skipped(&cmd, false));
    let mut overriding = cmd.clone();
    overriding.dry_run = Some(true);
    assert!(!command_skipped(&overriding, true));
}

#[test]
fn changeset_files_have_md_extension() {
    assert!(has_md_extension(".changes/a.md"));
    assert!(!has_md_extension(".changes/config.toml"));
    assert!(!has_md_extension("md"));
}

#[test]
fn get_changesets_parses_each_file() {
    let known = vec!["pkg-a".to_string()];
    let files = vec![
        (".changes/one.md".to_string(), "pkg-a: minor\n---\n\nOne.\n".to_string()),
        (".changes/two.md".to_string(), "pkg-a: patch\n---\n\nTwo.\n".to_string()),
    ];
    let cs = get_changesets(&files, &known).unwrap();
    assert_eq!(cs.len(), 2);
    assert_eq!(cs[0].name, "one");
    assert_eq!(cs[1].summary, "Two.");
    let bad = vec![(".changes/bad.md".to_string(), "no separator".to_string())];
    assert!(matches!(
        get_changesets(&bad, &known),
        Err(ResolveError::InvalidChangeset { .. })
    ));
}

fn sample_config() -> Config {
    Config {
        branches: BranchesConfig { base: "main".to_string(), release: "release".to_string() },
        tags: vec![("feat".to_string(), "New Feature".to_string())],
        packages: vec![
            ("app".to_string(), pkg(ResolverType::Rust)),
            ("web".to_string(), pkg(ResolverType::Nodejs)),
        ],
        resolver: vec![(
            ResolverType::Rust,
            ResolverConfig {
                pre_check: PreCheckConfig { url: "https://example.invalid".to_string(), extra_headers: Vec::new() },
                prepublish: Vec::new(),
                publish: Vec::new(),
                post_version: Vec::new(),
            },
        )],
    }
}

#[test]
fn config_lookups_find_first_matches() {
    let c = sample_config();
    assert!(c.has_package("app"));
    assert!(!c.has_package("ghost"));
    assert_eq!(c.package_names(), vec!["app".to_string(), "web".to_string()]);
    assert_eq!(c.tag_label("feat"), Some("New Feature".to_string()));
    assert_eq!(c.tag_label("fix"), None);
    assert!(c.get_resolver_config(ResolverType::Rust).is_some());
    assert!(c.get_resolver_config(ResolverType::Python).is_none());
    assert!(c.get_package_config("web").is_some());
    assert!(c.get_package_config("ghost").is_none());
}

#[test]
fn stdio_and_resolver_names() {
    assert!(StdioType::default().is_inherit());
    assert!(!StdioType::Pipe.is_inherit());
    assert_eq!(ResolverType::Rust.name(), "rust");
    assert_eq!(ResolverType::Nodejs.name(), "nodejs");
    assert_eq!(ResolverType::Python.name(), "python");
    assert_eq!(ResolverType::Cpp.name(), "cpp");
    let asset = AssetConfig { path: "dist/x.tar.gz".to_string(), name: None };
    assert_eq!(asset.resolved_name(), "x.tar.gz");
    let named = AssetConfig { path: "dist/x.tar.gz".to_string(), name: Some("bundle".to_string()) };
    assert_eq!(named.resolved_name(), "bundle");
}

#[test]
fn cmake_resolve_reads_project_name_and_version() {
    let cmake = "cmake_minimum_required(VERSION 3.20)\nproject(MyLib VERSION 1.4.2 LANGUAGES CXX)\n";
    let p = CppResolver::resolve("native/mylib", Some(cmake)).unwrap();
    assert_eq!(p.name, "MyLib");
    assert_eq!(p.version, "1.4.2");
}

#[test]
fn cmake_project_scan_without_boilerplate() {
    let cmake = "project(MyLib VERSION 1.4.2 LANGUAGES CXX)\n";
    let p = CppResolver::resolve("native/mylib", Some(cmake)).unwrap();
    assert_eq!(p.name, "MyLib");
    assert_eq!(p.version, "1.4.2");
    assert!(matches!(
        CppResolver::resolve("native", None),
        Err(semifold::error::ResolveError::FileOrDirNotFound { .. })
    ));
    assert!(matches!(
        CppResolver::resolve("native", Some("add_library(x)\n")),
        Err(semifold::error::ResolveError::ParseError { .. })
    ));
}

#[test]
fn cmake_version_rewrite_keeps_the_rest() {
    let cmake = "project(MyLib VERSION 1.4.2 LANGUAGES CXX)\nadd_library(mylib)\n";
    let out = CppResolver::update_cmake_version(cmake, "1.5.0");
    assert_eq!(out, "project(MyLib VERSION 1.5.0 LANGUAGES CXX)\nadd_library(mylib)\n");
    let untouched = CppResolver::update_cmake_version("add_library(x)\n", "9.9.9");
    assert_eq!(untouched, "add_library(x)\n");
}

#[test]
fn vcpkg_version_rewrite_sets_the_field() {
    let out = CppResolver::update_vcpkg_version("{\"name\": \"mylib\", \"version\": \"1.4.2\"}", "1.5.0").unwrap();
    assert!(out.contains("\"version\": \"1.5.0\""));
}
