use skills_manager::commands::{
    delete_bundle, deploy_bundle, is_supported_agent, list_bundles, save_bundle,
};
use skills_manager::bundle::{BundleManifest, BundleStage};
use skills_manager::text::decimal_text;
use skills_manager::web::{
    check_access, check_binding, cli_arguments, cli_failure_message, cli_output, configured_token,
    missing_field_message, required_field, text_field, trim_text, unsupported_request_message,
    web_route, AccessDenied, CliRequest, WebRoute,
};

fn strings(items: &[&str]) -> Vec<String> {
    items.iter().map(|s| s.to_string()).collect()
}

fn one_stage_manifest() -> BundleManifest {
    BundleManifest {
        schema_version: 1,
        slug: "web-release".to_string(),
        description: "Web release".to_string(),
        instructions: String::new(),
        stages: vec![BundleStage {
            id: "build".to_string(),
            skills: strings(&["frontend-design"]),
            after: Vec::new(),
            when: None,
        }],
    }
}

#[test]
fn invalid_manifest_is_refused_before_saving() {
    let mut manifest = one_stage_manifest();
    manifest.slug = "Bad Slug".to_string();
    match save_bundle(&manifest, None) {
        Err(e) => assert_eq!(
            e.message(),
            "bundle slug must use lowercase letters, digits, and single hyphens"
        ),
        Ok(_) => panic!("invalid manifest accepted"),
    }
}

#[test]
fn bundle_command_lines() {
    assert_eq!(list_bundles(), strings(&["bundles", "list"]));
    let manifest = one_stage_manifest();
    assert_eq!(
        save_bundle(&manifest, Some("web-release")).unwrap().for_path("/tmp/m.yaml"),
        strings(&["bundles", "update", "web-release", "/tmp/m.yaml"])
    );
    assert_eq!(
        save_bundle(&manifest, None).unwrap().for_path("/tmp/m.yaml"),
        strings(&["bundles", "import", "/tmp/m.yaml"])
    );
    assert_eq!(delete_bundle("x"), strings(&["bundles", "delete", "x"]));
    assert_eq!(
        deploy_bundle("x", "codex", true, false).unwrap(),
        strings(&["bundles", "deploy", "x", "--agent", "codex", "--dry-run"])
    );
    assert_eq!(
        deploy_bundle("x", "hermes", false, true).unwrap(),
        strings(&["bundles", "undeploy", "x", "--agent", "hermes"])
    );
    assert!(deploy_bundle("x", "gemini", false, false).is_err());
    assert!(is_supported_agent("codex"));
    assert!(is_supported_agent("hermes"));
    assert!(!is_supported_agent("Codex"));
    let refusal = deploy_bundle("x", "gemini", false, false).unwrap_err();
    assert_eq!(refusal.message(), "unsupported bundle agent");
    assert_eq!(refusal.web_message(), "bundle deployment supports codex and hermes");
}

#[test]
fn routes_by_name() {
    assert!(matches!(web_route("list_bundles"), WebRoute::ListBundles));
    assert!(matches!(web_route("switch_preset"), WebRoute::ApplyPreset));
    assert!(matches!(web_route("apply_preset_to_default"), WebRoute::ApplyPreset));
    assert!(matches!(web_route("sync_skill_to_tool"), WebRoute::DeploySkill));
    assert!(matches!(web_route("check_last_panic"), WebRoute::Ignored));
    assert!(matches!(web_route("get_presets"), WebRoute::Other));
    assert!(matches!(web_route("nonsense"), WebRoute::Other));
}

#[test]
fn cli_request_arguments() {
    let req = CliRequest::CreatePreset {
        name: "dev".to_string(),
        description: None,
        icon: Some("star".to_string()),
    };
    assert_eq!(
        cli_arguments(&req).unwrap(),
        strings(&["presets", "create", "dev", "--icon", "star"])
    );
    let req = CliRequest::DeletePreset { id: "p1".to_string() };
    assert_eq!(cli_arguments(&req).unwrap(), strings(&["presets", "delete", "p1", "--yes"]));
    let req = CliRequest::UndeploySkill { skill_id: "s".to_string(), tool: "codex".to_string() };
    assert_eq!(
        cli_arguments(&req).unwrap(),
        strings(&["skills", "undeploy", "s", "--agent", "codex"])
    );
    let req = CliRequest::GitCommit { message: "m".to_string() };
    assert_eq!(cli_arguments(&req).unwrap(), strings(&["git", "commit", "--message", "m"]));
    let req = CliRequest::DeployBundle {
        slug: "x".to_string(),
        agent: "other".to_string(),
        undeploy: false,
        dry_run: false,
    };
    assert!(cli_arguments(&req).is_err());
}

#[test]
fn field_checks() {
    assert_eq!(required_field(Some("a")), Some("a"));
    assert_eq!(required_field(Some("")), None);
    assert_eq!(required_field(None), None);
    let long = "x".repeat(4097);
    assert_eq!(required_field(Some(&long)), None);
    let edge = "x".repeat(4096);
    assert_eq!(required_field(Some(&edge)), Some(edge.as_str()));
    assert_eq!(text_field(Some("")), Some(""));
    assert_eq!(text_field(Some(&long)), None);
    assert_eq!(missing_field_message("slug"), "missing or invalid slug");
    assert_eq!(unsupported_request_message("x"), "Web mode does not support x yet");
}

#[test]
fn access_rules() {
    assert!(check_access("127.0.0.1:1420", true, 1420, "127.0.0.1:1420", None, None, None).is_ok());
    assert!(check_access("127.0.0.1:1420", true, 1420, "localhost:1420", None, None, None).is_ok());
    let e = check_access("100.1.2.3:1420", false, 1420, "localhost:1420", None, None, None).unwrap_err();
    assert!(matches!(e, AccessDenied::InvalidHost));
    assert_eq!(e.status(), 403);
    assert_eq!(e.message(), "invalid host");
    let e = check_access(
        "127.0.0.1:1420",
        true,
        1420,
        "127.0.0.1:1420",
        Some("http://evil.example".as_bytes()),
        None,
        None,
    )
    .unwrap_err();
    assert!(matches!(e, AccessDenied::InvalidOrigin));
    assert!(check_access(
        "127.0.0.1:1420",
        true,
        1420,
        "127.0.0.1:1420",
        Some("http://127.0.0.1:1420".as_bytes()),
        None,
        None
    )
    .is_ok());
    let e = check_access(
        "100.1.2.3:1420",
        false,
        1420,
        "100.1.2.3:1420",
        None,
        Some("secret"),
        Some("Bearer wrong"),
    )
    .unwrap_err();
    assert!(matches!(e, AccessDenied::AuthenticationRequired));
    assert_eq!(e.status(), 401);
    assert_eq!(e.message(), "Authentication required");
    assert!(check_access(
        "100.1.2.3:1420",
        false,
        1420,
        "100.1.2.3:1420",
        None,
        Some("secret"),
        Some("Bearer secret")
    )
    .is_ok());
}

#[test]
fn unreadable_origin_is_refused() {
    let e = check_access(
        "127.0.0.1:1420",
        true,
        1420,
        "127.0.0.1:1420",
        Some(&[0x68u8, 0xff, 0x00][..]),
        None,
        None,
    )
    .unwrap_err();
    assert!(matches!(e, AccessDenied::InvalidOrigin));
    assert_eq!(e.status(), 403);
    assert_eq!(e.message(), "invalid origin");
}

#[test]
fn binding_rules() {
    assert!(check_binding(true, None).is_ok());
    assert!(check_binding(false, None).is_err());
    assert!(check_binding(false, Some("short")).is_err());
    assert!(check_binding(false, Some(&"t".repeat(24))).is_ok());
    assert_eq!(configured_token(Some(String::new())), None);
    assert_eq!(configured_token(Some("a".to_string())), Some("a".to_string()));
    assert_eq!(configured_token(None), None);
}

#[test]
fn trimming_and_failure_messages() {
    assert_eq!(trim_text("  a b \n"), "a b");
    assert_eq!(trim_text(" \t "), "");
    assert_eq!(trim_text("x"), "x");
    assert_eq!(cli_failure_message("{\"message\": \"boom\"}"), "boom");
    assert_eq!(cli_failure_message("  failed\n"), "failed");
    assert_eq!(cli_failure_message(" {\"message\": 3} "), "{\"message\": 3}");
    assert_eq!(cli_failure_message("[1]"), "[1]");
    let value = cli_output("  {\"ok\": true}\n").unwrap();
    assert_eq!(value.get("ok").and_then(|v| v.as_bool()), Some(true));
    assert!(cli_output("not json").is_none());
    assert!(cli_output("   ").is_none());
}

#[test]
fn decimal_formatting() {
    assert_eq!(decimal_text(0), "0");
    assert_eq!(decimal_text(7), "7");
    assert_eq!(decimal_text(1420), "1420");
    assert_eq!(decimal_text(u32::MAX), u32::MAX.to_string());
}
