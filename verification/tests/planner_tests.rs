use april::errors::AprilError;
use april::manifest::{
    validate_april_data, AprilFileOperation, AprilFileOperationPhase, AprilFileOperationType,
    AprilPackage, AprilPackageOverrides, AprilPackageScriptOverrides,
};
use april::plan::{plan_actions_from_april_data, AprilAction, AprilActionType};

fn empty_overrides() -> AprilPackageOverrides {
    AprilPackageOverrides {
        name: None,
        version: None,
        arch: None,
        essential: None,
        installed_size: None,
        section: None,
        description: None,
        depends: None,
        recommends: None,
        suggests: None,
        enhances: None,
        pre_depends: None,
        breaks: None,
        conflicts: None,
        replaces: None,
        provides: None,
        scripts: None,
        conffiles: None,
    }
}

fn minimal_package() -> AprilPackage {
    AprilPackage {
        schema: "0".to_string(),
        name: "libfoo".to_string(),
        compatible_versions: ">=1.0 && <2.0".to_string(),
        total_conversion: false,
        overrides: empty_overrides(),
        files: None,
    }
}

#[test]
fn validate_accepts_minimal_manifest() {
    assert!(validate_april_data(&minimal_package()).is_ok());
}

#[test]
fn validate_rejects_wrong_schema() {
    let mut pkg = minimal_package();
    pkg.schema = "1".to_string();
    let err = validate_april_data(&pkg).unwrap_err();
    assert_eq!(err, AprilError::InvalidSchema);
    assert_eq!(err.message(), "Invalid schema version, expected 0");
}

#[test]
fn validate_rejects_incomplete_total_conversion() {
    let mut pkg = minimal_package();
    pkg.total_conversion = true;
    let err = validate_april_data(&pkg).unwrap_err();
    assert_eq!(err, AprilError::MissingMandatoryFields);
}

#[test]
fn validate_accepts_complete_total_conversion() {
    let mut pkg = minimal_package();
    pkg.total_conversion = true;
    pkg.overrides.name = Some("foo".to_string());
    pkg.overrides.version = Some("1.0-1".to_string());
    pkg.overrides.arch = Some("amd64".to_string());
    pkg.overrides.installed_size = Some(42);
    pkg.overrides.section = Some("utils".to_string());
    pkg.overrides.description = Some("a tool".to_string());
    pkg.overrides.depends = Some(vec!["bar".to_string()]);
    assert!(validate_april_data(&pkg).is_ok());
}

fn marker_positions(actions: &[AprilAction]) -> (usize, usize, usize) {
    let pre = actions
        .iter()
        .position(|a| matches!(a, AprilAction::PreconfigPackage))
        .unwrap();
    let ext = actions
        .iter()
        .position(|a| matches!(a, AprilAction::ExtractPackage))
        .unwrap();
    let cfg = actions
        .iter()
        .position(|a| matches!(a, AprilAction::ConfigurePackage))
        .unwrap();
    (pre, ext, cfg)
}

#[test]
fn plan_markers_in_lifecycle_order() {
    let mut pkg = minimal_package();
    pkg.overrides.depends = Some(vec!["+c".to_string(), "-a".to_string()]);
    pkg.overrides.version = Some("1.0-2".to_string());
    let actions = plan_actions_from_april_data(&pkg).unwrap();
    let (pre, ext, cfg) = marker_positions(&actions);
    assert!(pre < ext && ext < cfg);
}

#[test]
fn plan_scripts_bracket_markers() {
    let mut pkg = minimal_package();
    pkg.overrides.scripts = Some(AprilPackageScriptOverrides {
        prerm: Some("#!/bin/sh".to_string()),
        postrm: Some(String::new()),
        preinst: Some("#!/bin/sh".to_string()),
        postinst: Some("#!/bin/sh".to_string()),
        triggers: Some("interest /usr".to_string()),
    });
    let actions = plan_actions_from_april_data(&pkg).unwrap();
    let (pre, ext, cfg) = marker_positions(&actions);
    for (i, a) in actions.iter().enumerate() {
        if let AprilAction::PatchScript { file, .. } = a {
            match file.as_str() {
                "preinst" | "prerm" | "triggers" => assert!(i < pre),
                "postinst" | "postrm" => assert!(ext < i && i < cfg),
                other => panic!("unexpected script {}", other),
            }
        }
    }
    // An empty body removes the script; a non-empty one replaces it.
    assert!(actions.iter().any(|a| matches!(
        a,
        AprilAction::PatchScript { file, content: None, action: AprilActionType::Remove }
            if file == "postrm"
    )));
    assert!(actions.iter().any(|a| matches!(
        a,
        AprilAction::PatchScript { file, content: Some(c), action: AprilActionType::Replace }
            if file == "preinst" && c == "#!/bin/sh"
    )));
}

#[test]
fn plan_total_conversion_drops_control_first() {
    let mut pkg = minimal_package();
    pkg.total_conversion = true;
    let actions = plan_actions_from_april_data(&pkg).unwrap();
    assert!(matches!(actions[0], AprilAction::DropControlData));
}

#[test]
fn plan_list_modifiers() {
    let mut pkg = minimal_package();
    pkg.overrides.depends = Some(vec![
        "+x".to_string(),
        "-y".to_string(),
        "z".to_string(),
        String::new(),
        "\u{e9}clair".to_string(),
    ]);
    let actions = plan_actions_from_april_data(&pkg).unwrap();
    let patches: Vec<_> = actions
        .iter()
        .filter_map(|a| match a {
            AprilAction::PatchField { field, value, action } if field == "Depends" => {
                Some((value.clone(), *action))
            }
            _ => None,
        })
        .collect();
    assert_eq!(
        patches,
        vec![
            ("x".to_string(), AprilActionType::Append),
            ("y".to_string(), AprilActionType::Remove),
            ("z".to_string(), AprilActionType::Append),
            ("\u{e9}clair".to_string(), AprilActionType::Append),
        ]
    );
}

#[test]
fn plan_empty_list_emits_single_clear() {
    let mut pkg = minimal_package();
    pkg.overrides.provides = Some(vec![]);
    let actions = plan_actions_from_april_data(&pkg).unwrap();
    let patches: Vec<_> = actions
        .iter()
        .filter(|a| matches!(a, AprilAction::PatchField { field, .. } if field == "Provides"))
        .collect();
    assert_eq!(patches.len(), 1);
    assert!(matches!(
        patches[0],
        AprilAction::PatchField { value, action: AprilActionType::Replace, .. }
            if value.is_empty()
    ));
}

#[test]
fn plan_scalar_and_rendered_fields() {
    let mut pkg = minimal_package();
    pkg.overrides.essential = Some(true);
    pkg.overrides.installed_size = Some(10240);
    pkg.overrides.version = Some("2.0".to_string());
    let actions = plan_actions_from_april_data(&pkg).unwrap();
    assert!(actions.iter().any(|a| matches!(
        a,
        AprilAction::PatchField { field, value, action: AprilActionType::Replace }
            if field == "Essential" && value == "yes"
    )));
    assert!(actions.iter().any(|a| matches!(
        a,
        AprilAction::PatchField { field, value, action: AprilActionType::Replace }
            if field == "Installed-Size" && value == "10240"
    )));
    assert!(actions.iter().any(|a| matches!(
        a,
        AprilAction::PatchField { field, value, action: AprilActionType::Replace }
            if field == "Version" && value == "2.0"
    )));
}

#[test]
fn plan_conffiles_joined_with_newlines() {
    let mut pkg = minimal_package();
    pkg.overrides.conffiles = Some(vec!["/etc/a".to_string(), "/etc/b".to_string()]);
    let actions = plan_actions_from_april_data(&pkg).unwrap();
    assert!(actions.iter().any(|a| matches!(
        a,
        AprilAction::PatchScript { file, content: Some(c), action: AprilActionType::Replace }
            if file == "conffiles" && c == "/etc/a\n/etc/b"
    )));
    pkg.overrides.conffiles = Some(vec![]);
    let actions = plan_actions_from_april_data(&pkg).unwrap();
    assert!(actions.iter().any(|a| matches!(
        a,
        AprilAction::PatchScript { file, content: None, action: AprilActionType::Remove }
            if file == "conffiles"
    )));
}

#[test]
fn plan_file_operations_by_phase() {
    let mut pkg = minimal_package();
    pkg.files = Some(vec![
        (
            "usr/bin/foo".to_string(),
            AprilFileOperation {
                phase: AprilFileOperationPhase::Unpack,
                operation: AprilFileOperationType::Chmod(0o755),
            },
        ),
        (
            "etc/foo.conf".to_string(),
            AprilFileOperation {
                phase: AprilFileOperationPhase::Postinst,
                operation: AprilFileOperationType::Remove,
            },
        ),
    ]);
    let actions = plan_actions_from_april_data(&pkg).unwrap();
    let (_, ext, cfg) = marker_positions(&actions);
    let unpack_pos = actions
        .iter()
        .position(|a| matches!(a, AprilAction::PatchFile { path, .. } if path == "usr/bin/foo"))
        .unwrap();
    let post_pos = actions
        .iter()
        .position(|a| matches!(a, AprilAction::PatchFile { path, .. } if path == "etc/foo.conf"))
        .unwrap();
    assert!(ext < unpack_pos && unpack_pos < cfg);
    assert!(cfg < post_pos);
}

#[test]
fn decimal_rendering() {
    assert_eq!(april::strutil::u64_to_string(0), "0");
    assert_eq!(april::strutil::u64_to_string(7), "7");
    assert_eq!(april::strutil::u64_to_string(10240), "10240");
    assert_eq!(
        april::strutil::u64_to_string(u64::MAX),
        "18446744073709551615"
    );
}
