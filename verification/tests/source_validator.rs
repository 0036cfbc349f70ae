//! Validation of a parsed migration set: duplicate versions and gaps.
use tern::parse::{SourceError, Validator, Version};

fn to_validator(vs: Vec<i64>) -> Validator {
    let ids = vs
        .into_iter()
        .map(|v| (v, v.to_string()))
        .collect::<Vec<_>>();
    Validator::new(ids)
}

#[test]
fn duplicate_version() {
    let vs = vec![1, 2, 3, 3, 4, 5, 6, 6, 7];
    let validator = to_validator(vs);
    let res = validator.duplicate_versions();
    assert!(
        matches!(res, Err(SourceError::Version(Version { offending_versions, ..})) if offending_versions == vec![3, 6])
    );
}

#[test]
fn missing_version() {
    let vs = vec![1, 2, 3, 4, 5, 6, 8, 9, 10, 11];
    let validator = to_validator(vs);
    let res = validator.missing_versions();
    assert!(
        matches!(res, Err(SourceError::Version(Version { offending_versions, ..})) if offending_versions == vec![8])
    );
}

#[test]
fn source_ok() {
    let vs = vec![1, 2, 3, 4, 5, 6];
    let validator = to_validator(vs);
    let res = validator.validate();
    assert!(res.is_ok())
}
