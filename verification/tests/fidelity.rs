use chickenscratch_core::error::ChiknError;
use chickenscratch_core::project::fidelity::{
    acquire_write_token, check_format_version, describe_reasons, fidelity_from_reasons, parse_version, DegradedReason,
    EpochRegistry, Fidelity,
};

fn ok(s: &str) -> Result<String, String> {
    Ok(s.to_string())
}

#[test]
fn token_rejected_for_other_project() {
    let registry = EpochRegistry::new();
    let token_a = acquire_write_token(Ok(Fidelity::Full), Ok("/projects/a.chikn".to_string()), &registry).unwrap();
    assert!(token_a.permit("/projects/a.chikn", &ok("/projects/a.chikn"), Ok(Fidelity::Full), &registry).is_ok());
    let result = token_a.permit("/projects/b.chikn", &ok("/projects/b.chikn"), Ok(Fidelity::Full), &registry);
    assert!(matches!(result, Err(ChiknError::ReadOnly(_))), "token for project A must not validate against project B");
}

#[test]
fn token_stale_after_epoch_bump() {
    let mut registry = EpochRegistry::new();
    let root = "/projects/a.chikn";
    let token = acquire_write_token(Ok(Fidelity::Full), Ok(root.to_string()), &registry).unwrap();
    {
        let permit = token.permit(root, &ok(root), Ok(Fidelity::Full), &registry).unwrap();
        assert!(permit.ensure_fresh(&registry).is_ok());
    }
    registry.bump(root);
    assert!(token.is_stale(&registry));
    assert!(matches!(token.permit(root, &ok(root), Ok(Fidelity::Full), &registry), Err(ChiknError::ReadOnly(_))));
    let fresh = acquire_write_token(Ok(Fidelity::Full), Ok(root.to_string()), &registry).unwrap();
    assert!(fresh.permit(root, &ok(root), Ok(Fidelity::Full), &registry).is_ok());
}

#[test]
fn token_for_one_project_is_refused_against_another() {
    let registry = EpochRegistry::new();
    let token = acquire_write_token(Ok(Fidelity::Full), Ok("/a".to_string()), &registry).unwrap();
    match token.ensure_valid_root("/b", &ok("/b")) {
        Err(ChiknError::ReadOnly(m)) => assert_eq!(m, "write access was granted for /a, not /b"),
        _ => panic!("expected ReadOnly"),
    }
    match token.ensure_valid_root("/c", &Err("no such file".to_string())) {
        Err(ChiknError::ReadOnly(m)) => assert_eq!(m, "cannot resolve project path /c: no such file"),
        _ => panic!("expected ReadOnly"),
    }
}

#[test]
fn token_goes_stale_after_tree_replacing_operation() {
    let mut registry = EpochRegistry::new();
    let token_a = acquire_write_token(Ok(Fidelity::Full), Ok("/a".to_string()), &registry).unwrap();
    let token_b = acquire_write_token(Ok(Fidelity::Full), Ok("/b".to_string()), &registry).unwrap();
    registry.bump("/a");
    assert_eq!(registry.current("/a"), 1);
    assert_eq!(registry.current("/b"), 0);
    assert!(token_a.is_stale(&registry));
    assert!(!token_b.is_stale(&registry));
    match token_a.ensure_epoch_fresh(&registry) {
        Err(ChiknError::ReadOnly(m)) => {
            assert_eq!(m, "the project at /a changed on disk after this session started; reopen it to continue")
        }
        _ => panic!("expected ReadOnly"),
    }
}

#[test]
fn degraded_project_gets_no_token() {
    let registry = EpochRegistry::new();
    let reasons = vec![DegradedReason::OrphanDocument { path: "manuscript/x.md".to_string() }];
    match acquire_write_token(Ok(Fidelity::Degraded { reasons }), Ok("/a".to_string()), &registry) {
        Err(ChiknError::ReadOnly(m)) => assert_eq!(m, "'manuscript/x.md' exists on disk but is not listed in the project"),
        _ => panic!("expected ReadOnly"),
    }
    assert!(matches!(
        acquire_write_token(Err(ChiknError::NotFound("gone".to_string())), Ok("/a".to_string()), &registry),
        Err(ChiknError::NotFound(_))
    ));
}

#[test]
fn reasons_are_joined_in_one_sentence() {
    let reasons = vec![
        DegradedReason::CorruptSidecar { path: "manuscript/a.meta".to_string() },
        DegradedReason::NewerFormatVersion { found: "9.9".to_string() },
    ];
    assert_eq!(
        describe_reasons(&reasons),
        "the notes file 'manuscript/a.meta' is damaged; this project was saved by a newer version of the app (format 9.9)"
    );
    assert!(matches!(fidelity_from_reasons(vec![]), Fidelity::Full));
    assert!(matches!(fidelity_from_reasons(reasons), Fidelity::Degraded { .. }));
}

#[test]
fn format_versions_are_compared_numerically() {
    assert_eq!(parse_version("1.10.2"), Some(vec![1, 10, 2]));
    assert_eq!(parse_version("1.x"), None);
    let mut r = Vec::new();
    check_format_version(Some("9.9"), &mut r);
    check_format_version(Some("1.2"), &mut r);
    check_format_version(Some("1.1"), &mut r);
    check_format_version(None, &mut r);
    check_format_version(Some("one"), &mut r);
    assert_eq!(
        describe_reasons(&r),
        "this project was saved by a newer version of the app (format 9.9); this project declares a format ('one') this version of the app does not understand"
    );
}
