use semifold::changeset::{sanitize_filename, BumpLevel, Changeset};
use semifold::error::ResolveError;

fn known() -> Vec<String> {
    vec!["pkg-a".to_string(), "pkg-b".to_string()]
}

#[test]
fn parses_front_matter_separator_and_summary() {
    let content = "pkg-a: minor:feat\npkg-b: patch\n---\n\nAdd streaming support to the ingest path.\n";
    let cs = Changeset::parse_file(".changes/add-streaming.md", content, &known()).unwrap();
    assert_eq!(cs.name, "add-streaming");
    assert_eq!(cs.root_path, ".changes");
    assert_eq!(cs.path.as_deref(), Some(".changes/add-streaming.md"));
    assert_eq!(cs.summary, "Add streaming support to the ingest path.");
    assert_eq!(cs.packages.len(), 2);
    assert_eq!(cs.packages[0].name, "pkg-a");
    assert!(matches!(cs.packages[0].level, BumpLevel::Minor));
    assert_eq!(cs.packages[0].tag.as_deref(), Some("feat"));
    assert_eq!(cs.packages[1].name, "pkg-b");
    assert!(matches!(cs.packages[1].level, BumpLevel::Patch));
    assert_eq!(cs.packages[1].tag, None);
}

#[test]
fn missing_separator_is_invalid_changeset() {
    let r = Changeset::parse_file("c.md", "pkg-a: minor\n\nNo separator here.\n", &known());
    match r {
        Err(ResolveError::InvalidChangeset { path, .. }) => assert_eq!(path, "c.md"),
        other => panic!("expected invalid changeset, got {:?}", other),
    }
}

#[test]
fn unknown_package_is_invalid_changeset() {
    let content = "pkg-c: minor\n---\n\nUnknown package.\n";
    let r = Changeset::parse_file("c.md", content, &known());
    match r {
        Err(ResolveError::InvalidChangeset { reason, .. }) => {
            assert!(reason.contains("pkg-c"), "reason should name the package: {reason}");
        }
        other => panic!("expected invalid changeset, got {:?}", other),
    }
}

#[test]
fn bad_level_token_is_invalid_changeset() {
    let content = "pkg-a: huge\n---\n\nBad level.\n";
    let r = Changeset::parse_file("c.md", content, &known());
    match r {
        Err(ResolveError::InvalidChangeset { reason, .. }) => {
            assert!(reason.contains("huge"), "reason should name the token: {reason}");
        }
        other => panic!("expected invalid changeset, got {:?}", other),
    }
}

#[test]
fn commit_then_parse_round_trips() {
    let mut cs = Changeset::new("my-change".to_string(), ".changes");
    cs.add_package("pkg-a".to_string(), BumpLevel::Major, Some("feat".to_string()));
    cs.add_package("pkg-b".to_string(), BumpLevel::Patch, None);
    cs.summary("A change worth shipping.".to_string());
    let (path, content) = cs.commit();
    assert_eq!(path, ".changes/my-change.md");
    assert_eq!(cs.path.as_deref(), Some(".changes/my-change.md"));

    let back = Changeset::parse_file(&path, &content, &known()).unwrap();
    assert_eq!(back.name, "my-change");
    assert_eq!(back.root_path, ".changes");
    assert_eq!(back.summary, "A change worth shipping.");
    assert_eq!(back.packages.len(), 2);
    assert_eq!(back.packages[0].name, "pkg-a");
    assert!(matches!(back.packages[0].level, BumpLevel::Major));
    assert_eq!(back.packages[0].tag.as_deref(), Some("feat"));
    assert_eq!(back.packages[1].name, "pkg-b");
    assert!(matches!(back.packages[1].level, BumpLevel::Patch));
    assert_eq!(back.packages[1].tag, None);
}

#[test]
fn separator_inside_front_matter_is_tolerated() {
    // The parser splits at the *last* separator occurrence, so a package
    // name mentioning the token still reads back.
    let content = "pkg---x: patch\n---\n\nSummary.\n";
    let known = vec!["pkg---x".to_string()];
    let cs = Changeset::parse_file("x.md", content, &known).unwrap();
    assert_eq!(cs.packages[0].name, "pkg---x");
    assert_eq!(cs.summary, "Summary.");
}

#[test]
fn empty_front_matter_gives_no_packages() {
    let cs = Changeset::parse_file("e.md", "---\n\nJust a note.\n", &known()).unwrap();
    assert!(cs.packages.is_empty());
    assert_eq!(cs.summary, "Just a note.");
}

#[test]
fn add_packages_records_each_name() {
    let mut cs = Changeset::new("n".to_string(), ".");
    cs.add_packages(
        &vec!["pkg-a".to_string(), "pkg-b".to_string()],
        BumpLevel::Minor,
        Some("fix".to_string()),
    );
    assert_eq!(cs.packages.len(), 2);
    assert_eq!(cs.packages[1].name, "pkg-b");
    assert_eq!(cs.packages[1].tag.as_deref(), Some("fix"));
}

#[test]
fn clean_path_names_the_backing_file() {
    let cs = Changeset::new("done".to_string(), ".changes");
    assert_eq!(cs.clean_path(), ".changes/done.md");
}

#[test]
fn sanitize_filename_maps_illegal_characters() {
    assert_eq!(sanitize_filename("My Change/Name"), "my-change-name");
    assert_eq!(sanitize_filename("plain"), "plain");
    assert_eq!(sanitize_filename("<a>:\"b\""), "-a---b-");
}

#[test]
fn level_tokens_render_lowercase() {
    assert_eq!(BumpLevel::Major.token(), "major");
    assert_eq!(BumpLevel::Minor.token(), "minor");
    assert_eq!(BumpLevel::Patch.token(), "patch");
    assert_eq!(BumpLevel::Unchanged.token(), "unchanged");
}
