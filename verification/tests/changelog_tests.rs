use semifold::changelog::{
    first_introducing, format_line, merge_changelog, parse_pr_number, read_latest_changelog,
    render_changelog, PrInfo, RepoInfo,
};
use semifold::changeset::{BumpLevel, Changeset};
use semifold::error::ResolveError;

#[test]
fn merge_is_heading_anchored_with_single_blank_lines() {
    let existing = "# Changelog\n\n## v1.1.0\n\n### Changes\n\n- older\n";
    let entry = "## v1.2.0\n\n### Changes\n\n- newer";
    let merged = merge_changelog("CHANGELOG.md", existing, entry).unwrap();
    assert_eq!(
        merged,
        "# Changelog\n\n## v1.2.0\n\n### Changes\n\n- newer\n\n## v1.1.0\n\n### Changes\n\n- older\n"
    );
}

#[test]
fn merge_into_header_only_document() {
    let merged = merge_changelog("CHANGELOG.md", "# Changelog\n\n", "## v0.1.0\n\n- first").unwrap();
    assert_eq!(merged, "# Changelog\n\n## v0.1.0\n\n- first\n");
}

#[test]
fn merge_without_header_is_invalid_changelog() {
    let r = merge_changelog("CHANGELOG.md", "no header here\n", "## v1.0.0");
    match r {
        Err(ResolveError::InvalidChangelog { path, .. }) => assert_eq!(path, "CHANGELOG.md"),
        other => panic!("expected invalid changelog, got {:?}", other),
    }
}

#[test]
fn latest_section_is_the_first_heading() {
    let doc = "# Changelog\n\n## v1.2.0\n\n- newer line\n\n## v1.1.0\n\n- older line\n";
    let c = read_latest_changelog("CHANGELOG.md", doc).unwrap();
    assert_eq!(c.version, "v1.2.0");
    assert_eq!(c.body, "## v1.2.0\n\n- newer line");
}

#[test]
fn latest_section_requires_header_and_heading() {
    assert!(matches!(
        read_latest_changelog("c.md", "## v1.0.0\n- line\n"),
        Err(ResolveError::InvalidChangelog { .. })
    ));
    assert!(matches!(
        read_latest_changelog("c.md", "# Changelog\n\nno sections\n"),
        Err(ResolveError::InvalidChangelog { .. })
    ));
}

fn sample_changeset() -> Changeset {
    let mut cs = Changeset::new("n".to_string(), ".");
    cs.summary("Fix the flux capacitor.".to_string());
    cs
}

#[test]
fn format_line_with_full_attribution() {
    let cs = sample_changeset();
    let repo = Some(RepoInfo { owner: "octo".to_string(), repo_name: "semi".to_string() });
    let pr = Some(PrInfo {
        number: 42,
        author: Some("dev".to_string()),
        url: Some("https://github.com/octo/semi/pull/42".to_string()),
    });
    let hash = Some("0123456789abcdef".to_string());
    let line = format_line(&cs, &repo, &pr, &hash);
    assert_eq!(
        line,
        "- [`0123456`](https://github.com/octo/semi/commit/0123456789abcdef): Fix the flux capacitor. ([#42](https://github.com/octo/semi/pull/42) by @dev)"
    );
}

#[test]
fn format_line_without_attribution_is_just_the_summary() {
    let cs = sample_changeset();
    let line = format_line(&cs, &None, &None, &None);
    assert_eq!(line, "- Fix the flux capacitor.");
}

#[test]
fn format_line_with_pr_number_only() {
    let cs = sample_changeset();
    let pr = Some(PrInfo { number: 7, author: None, url: None });
    let line = format_line(&cs, &None, &pr, &None);
    assert_eq!(line, "- Fix the flux capacitor. (#7)");
}

#[test]
fn pr_marker_is_read_from_the_message() {
    assert_eq!(parse_pr_number("fix: handle empty input (#123)"), Some(123));
    assert_eq!(parse_pr_number("no marker at all"), None);
    assert_eq!(parse_pr_number("broken (#12x) then fine (#34)"), Some(34));
    assert_eq!(parse_pr_number("(#) empty digits"), None);
}

#[test]
fn attribution_picks_the_first_matching_commit() {
    assert_eq!(first_introducing(&vec![false, false, true, true]), Some(2));
    assert_eq!(first_introducing(&vec![true]), Some(0));
    assert_eq!(first_introducing(&vec![false, false]), None);
    assert_eq!(first_introducing(&Vec::new()), None);
}

fn tagged_changeset(name: &str, package: &str, tag: Option<&str>, summary: &str) -> Changeset {
    let mut cs = Changeset::new(name.to_string(), ".changes");
    cs.add_package(package.to_string(), BumpLevel::Minor, tag.map(|t| t.to_string()));
    cs.summary(summary.to_string());
    cs
}

#[test]
fn rendered_entry_groups_lines_by_tag_label() {
    let changesets = vec![
        tagged_changeset("a", "pkg", Some("feat"), "Add ingest."),
        tagged_changeset("b", "other", Some("feat"), "Elsewhere."),
        tagged_changeset("c", "pkg", None, "Tidy docs."),
        tagged_changeset("d", "pkg", Some("feat"), "Add export."),
    ];
    let atts = vec![(None, None), (None, None), (None, None), (None, None)];
    let tags = vec![("feat".to_string(), "New Feature".to_string())];
    let entry = render_changelog(&changesets, &atts, &None, &tags, "pkg", "1.1.0");
    assert_eq!(
        entry,
        "## v1.1.0\n\n### New Feature\n\n- Add ingest.\n- Add export.\n\n### Changes\n\n- Tidy docs."
    );
}

#[test]
fn rendered_entry_without_matching_changesets_is_just_the_heading() {
    let changesets = vec![tagged_changeset("a", "other", None, "Elsewhere.")];
    let atts = vec![(None, None)];
    let entry = render_changelog(&changesets, &atts, &None, &Vec::new(), "pkg", "2.0.0");
    assert_eq!(entry, "## v2.0.0\n\n");
}

#[test]
fn rendered_entry_carries_commit_and_pr_attribution() {
    let changesets = vec![tagged_changeset("a", "pkg", None, "Fix parsing.")];
    let atts = vec![(
        Some("abcdef0123456789".to_string()),
        Some(PrInfo { number: 9, author: None, url: None }),
    )];
    let repo = Some(RepoInfo { owner: "octo".to_string(), repo_name: "semi".to_string() });
    let entry = render_changelog(&changesets, &atts, &repo, &Vec::new(), "pkg", "1.0.1");
    assert_eq!(
        entry,
        "## v1.0.1\n\n### Changes\n\n- [`abcdef0`](https://github.com/octo/semi/commit/abcdef0123456789): Fix parsing. (#9)"
    );
}

#[test]
fn rendered_entry_merges_under_the_header() {
    let changesets = vec![tagged_changeset("a", "pkg", None, "First cut.")];
    let atts = vec![(None, None)];
    let entry = render_changelog(&changesets, &atts, &None, &Vec::new(), "pkg", "0.1.0");
    let merged = merge_changelog("CHANGELOG.md", "# Changelog\n\n", &entry).unwrap();
    let latest = read_latest_changelog("CHANGELOG.md", &merged).unwrap();
    assert_eq!(latest.version, "v0.1.0");
    assert_eq!(latest.body, "## v0.1.0\n\n### Changes\n\n- First cut.");
}
