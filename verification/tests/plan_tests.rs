use gbuild::config::Resource;
use gbuild::orchestrate::apply_action_value;
use gbuild::orchestrate::dependency_line;
use gbuild::orchestrate::join_path;
use gbuild::orchestrate::plan_build;
use gbuild::orchestrate::restore_action;
use gbuild::orchestrate::EnvAction;
use gbuild::scanner::ScanErrorKind;

fn bundle_config() -> Resource {
    Resource::builder()
        .src_dir("src")
        .definition_file("bundle.xml")
        .build(true)
        .unwrap()
}

#[test]
fn join_path_inserts_a_single_separator() {
    assert_eq!(join_path("src", "a.txt"), "src/a.txt");
    assert_eq!(join_path("src/", "a.txt"), "src/a.txt");
    assert_eq!(join_path("", "a.txt"), "a.txt");
}

#[test]
fn dependency_line_has_the_rerun_prefix() {
    assert_eq!(dependency_line("src/a.txt"), "cargo:rerun-if-changed=src/a.txt");
}

#[test]
fn plan_for_one_entry_names_every_artifact() {
    let res = bundle_config();
    let xml = b"<gresources><gresource prefix=\"/resourcetest/resources\"><file>data/test.txt</file></gresource></gresources>";
    let plan = plan_build(&res, "out", xml).unwrap();
    assert_eq!(plan.dependency_lines, vec!["cargo:rerun-if-changed=src/data/test.txt".to_string()]);
    assert_eq!(plan.generate_command.program, "glib-compile-resources");
    assert_eq!(
        plan.generate_command.args,
        vec![
            "--generate-source".to_string(),
            "bundle.xml".to_string(),
            "--sourcedir=src".to_string(),
            "--target=out/bundle.c".to_string(),
        ]
    );
    assert_eq!(plan.flags_command.program, "pkg-config");
    assert_eq!(
        plan.flags_command.args,
        vec![
            "--cflags".to_string(),
            "--static".to_string(),
            "--libs".to_string(),
            "gio-2.0".to_string(),
        ]
    );
    assert_eq!(plan.source_path, "out/bundle.c");
    assert_eq!(plan.unit_name, "bundle");
    assert_eq!(
        plan.final_lines,
        vec![
            "cargo:rerun-if-changed=bundle.xml".to_string(),
            "cargo:rerun-if-changed=build.rs".to_string(),
        ]
    );
}

#[test]
fn plan_for_an_empty_manifest_still_succeeds() {
    let res = bundle_config();
    let xml = b"<gresources><gresource prefix=\"/app\"></gresource></gresources>";
    let plan = plan_build(&res, "out", xml).unwrap();
    assert!(plan.dependency_lines.is_empty());
    assert_eq!(plan.unit_name, "bundle");
    assert_eq!(plan.source_path, "out/bundle.c");
}

#[test]
fn plan_propagates_the_scanner_error() {
    let res = bundle_config();
    let err = plan_build(&res, "out", b"<gresources><file").unwrap_err();
    assert_eq!(err.kind, ScanErrorKind::UnexpectedEof);
    assert_eq!(err.position, 12);
}

#[test]
fn restore_after_override_returns_the_prior_value() {
    let prior = Some("original flags".to_string());
    let overridden = apply_action_value(prior.clone(), &EnvAction::Assign("new flags".to_string()));
    assert_eq!(overridden, Some("new flags".to_string()));
    let restored = apply_action_value(overridden, &restore_action(prior.clone()));
    assert_eq!(restored, prior);
}

#[test]
fn restore_after_override_removes_a_previously_absent_value() {
    let overridden = apply_action_value(None, &EnvAction::Assign("new flags".to_string()));
    let restored = apply_action_value(overridden, &restore_action(None));
    assert_eq!(restored, None);
}
