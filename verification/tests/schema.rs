use ledgernomics::schema::{Project, SessionShape, Slice, SliceStatus, ValidationError};
use std::str::FromStr;

fn valid_slice() -> Slice {
    Slice {
        id: "led001".into(),
        title: "t".into(),
        goal: "g".into(),
        target_paths: vec!["src/a.rs".into()],
        acceptance: "tests green".into(),
        out_of_scope: "UI".into(),
        tests: vec![],
        max_files: 3,
        max_loc: 120,
        status: SliceStatus::Open,
        blockers: String::new(),
    }
}

#[test]
fn validate_ok() {
    assert!(valid_slice().validate().is_ok());
}

#[test]
fn reject_missing_out_of_scope() {
    let mut s = valid_slice();
    s.out_of_scope = "  ".into();
    assert_eq!(s.validate(), Err(ValidationError::MissingOutOfScope));
}

#[test]
fn reject_empty_acceptance() {
    let mut s = valid_slice();
    s.acceptance.clear();
    assert_eq!(s.validate(), Err(ValidationError::MissingAcceptance));
}

#[test]
fn reject_empty_paths() {
    let mut s = valid_slice();
    s.target_paths.clear();
    assert_eq!(s.validate(), Err(ValidationError::MissingTargetPaths));
}

#[test]
fn reject_blank_id() {
    let mut s = valid_slice();
    s.id = "\t \u{3000}".into();
    assert_eq!(s.validate(), Err(ValidationError::MissingId));
}

#[test]
fn reject_only_blank_paths() {
    let mut s = valid_slice();
    s.target_paths = vec![" ".into(), "\n".into()];
    assert_eq!(s.validate(), Err(ValidationError::MissingTargetPaths));
    s.target_paths.push("b.rs".into());
    assert!(s.validate().is_ok());
}

#[test]
fn validation_messages() {
    assert_eq!(ValidationError::MissingId.message(), "slice id is required");
    assert_eq!(ValidationError::MissingAcceptance.message(), "acceptance is required");
    assert_eq!(
        ValidationError::MissingTargetPaths.message(),
        "target_paths must be non-empty"
    );
    assert_eq!(ValidationError::MissingOutOfScope.message(), "out_of_scope is required");
}

#[test]
fn status_from_text_trims_and_folds_case() {
    assert_eq!(SliceStatus::from_str("  DONE \n"), Ok(SliceStatus::Done));
    assert_eq!(SliceStatus::from_str("Blocked"), Ok(SliceStatus::Blocked));
    assert_eq!(SliceStatus::from_str("open"), Ok(SliceStatus::Open));
    assert_eq!(SliceStatus::from_str("opened"), Err(()));
    assert_eq!(SliceStatus::from_str(""), Err(()));
    assert_eq!(SliceStatus::default(), SliceStatus::Open);
}

#[test]
fn shape_names_roundtrip() {
    for shape in [SessionShape::Feature, SessionShape::Steward] {
        assert_eq!(SessionShape::from_str(shape.as_str()), Ok(shape));
    }
    assert_eq!(SessionShape::from_str(" STEWARD"), Ok(SessionShape::Steward));
    assert_eq!(SessionShape::from_str("other"), Err(()));
    assert!(SessionShape::Steward.description().starts_with("Steward cleanup priority"));
    assert!(SessionShape::Feature.description().ends_with("stop at DoD."));
}

#[test]
fn project_default_is_active() {
    let p = Project::default();
    assert_eq!(p.status, "active");
    assert!(p.goals.is_empty() && p.non_goals.is_empty());
}

#[test]
fn slice_clone_keeps_fields() {
    let s = valid_slice();
    assert_eq!(s.clone(), s);
}
