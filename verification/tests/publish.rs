use cabin::cli::commands::package::publish::ProjectVersion;

fn version(major: u64, minor: u64, patch: u64) -> ProjectVersion {
    ProjectVersion { major, minor, patch }
}

#[test]
fn versions_are_written_with_dots() {
    assert_eq!(version(1, 20, 3).to_text(), "1.20.3");
    assert_eq!(version(0, 1, 0).to_text(), "0.1.0");
}

#[test]
fn releases_bump_the_version() {
    let current = version(1, 4, 7);
    assert_eq!(current.bumped(true, false, false), version(2, 0, 0));
    assert_eq!(current.bumped(false, true, false), version(1, 5, 0));
    assert_eq!(current.bumped(false, false, true), version(1, 4, 8));
    assert_eq!(current.bumped(true, true, true), version(2, 0, 0));
}

#[test]
fn new_projects_get_a_config() {
    assert_eq!(
        cabin::cli::commands::new::new_project_config("demo"),
        "[information]\nname = \"demo\"\ndescription = \"An example cabin project generated with cabin new\"\nlicense = \"All rights reserved\"\n\n[options]\n\n[libraries]\n"
    );
}
