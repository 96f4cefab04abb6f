use semifold::changeset::{BumpLevel, Changeset};
use semifold::error::ResolveError;
use semifold::version::{
    bump_version, get_bump_level, parse_version, version_string, VersionMode,
};

fn bumped(v: &str, level: BumpLevel, mode: &VersionMode) -> String {
    let mut ver = parse_version(v).unwrap();
    bump_version(&mut ver, level, mode).unwrap();
    version_string(&ver)
}

#[test]
fn semantic_bump_moves_each_component() {
    let m = VersionMode::Semantic;
    assert_eq!(bumped("1.2.3", BumpLevel::Major, &m), "2.0.0");
    assert_eq!(bumped("1.2.3", BumpLevel::Minor, &m), "1.3.0");
    assert_eq!(bumped("1.2.3", BumpLevel::Patch, &m), "1.2.4");
    assert_eq!(bumped("1.2.3", BumpLevel::Unchanged, &m), "1.2.3");
}

#[test]
fn semantic_bump_promotes_a_prerelease() {
    let m = VersionMode::Semantic;
    assert_eq!(bumped("1.2.3-beta.2", BumpLevel::Patch, &m), "1.2.3");
    assert_eq!(bumped("1.2.3-beta.2", BumpLevel::Major, &m), "1.2.3");
    assert_eq!(bumped("1.2.3-beta.2", BumpLevel::Unchanged, &m), "1.2.3");
}

#[test]
fn prerelease_bump_starts_counts_and_switches_channels() {
    let beta = VersionMode::PreRelease { tag: "beta".to_string() };
    let rc = VersionMode::PreRelease { tag: "rc".to_string() };
    let first = bumped("1.2.3", BumpLevel::Minor, &beta);
    assert_eq!(first, "1.2.3-beta.0");
    let second = bumped(&first, BumpLevel::Minor, &beta);
    assert_eq!(second, "1.2.3-beta.1");
    let switched = bumped(&second, BumpLevel::Minor, &rc);
    assert_eq!(switched, "1.2.3-rc.0");
}

#[test]
fn prerelease_bump_appends_counter_when_missing() {
    let beta = VersionMode::PreRelease { tag: "beta".to_string() };
    assert_eq!(bumped("1.2.3-beta", BumpLevel::Patch, &beta), "1.2.3-beta.1");
}

#[test]
fn empty_prerelease_tag_is_rejected() {
    let mut ver = parse_version("1.2.3").unwrap();
    let m = VersionMode::PreRelease { tag: String::new() };
    let r = bump_version(&mut ver, BumpLevel::Patch, &m);
    match r {
        Err(ResolveError::PreReleaseTagInvalid { tag, .. }) => assert_eq!(tag, ""),
        other => panic!("expected invalid prerelease tag, got {:?}", other),
    }
    assert_eq!(version_string(&ver), "1.2.3");
}

#[test]
fn unparsable_prerelease_counter_is_rejected() {
    let mut ver = parse_version("1.2.3-beta.x").unwrap();
    let m = VersionMode::PreRelease { tag: "beta".to_string() };
    let r = bump_version(&mut ver, BumpLevel::Patch, &m);
    match r {
        Err(ResolveError::InvalidVersion { version, .. }) => {
            assert_eq!(version, "1.2.3-beta.x");
        }
        other => panic!("expected invalid version, got {:?}", other),
    }
    assert_eq!(version_string(&ver), "1.2.3-beta.x");
}

#[test]
fn invalid_version_text_is_rejected() {
    let r = parse_version("not-a-version");
    assert!(matches!(r, Err(ResolveError::InvalidVersion { .. })));
}

#[test]
fn version_text_round_trips_with_build_metadata() {
    let v = parse_version("1.2.3-beta.1+build5").unwrap();
    assert_eq!(version_string(&v), "1.2.3-beta.1+build5");
}

fn changeset_for(entries: &[(&str, BumpLevel)]) -> Changeset {
    let mut cs = Changeset::new("n".to_string(), ".");
    for (name, level) in entries {
        cs.add_package(name.to_string(), *level, None);
    }
    cs
}

#[test]
fn bump_level_takes_the_maximum_across_changesets() {
    let changesets = vec![
        changeset_for(&[("p", BumpLevel::Patch)]),
        changeset_for(&[("q", BumpLevel::Major)]),
        changeset_for(&[("p", BumpLevel::Major), ("q", BumpLevel::Patch)]),
        changeset_for(&[("p", BumpLevel::Minor)]),
    ];
    assert!(matches!(get_bump_level(&changesets, "p"), BumpLevel::Major));
    assert!(matches!(get_bump_level(&changesets, "q"), BumpLevel::Major));
    assert!(matches!(get_bump_level(&changesets, "r"), BumpLevel::Unchanged));
}

#[test]
fn bump_level_is_unchanged_without_changesets() {
    let changesets: Vec<Changeset> = Vec::new();
    assert!(matches!(get_bump_level(&changesets, "p"), BumpLevel::Unchanged));
}
