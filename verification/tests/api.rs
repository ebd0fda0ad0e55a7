use openbiz::api::{ApiError, GraphKind, Health, CRATE_VERSION};

#[test]
fn ok_health_reports_status_and_version() {
    let health = Health::ok();
    assert_eq!(health.status, "ok");
    assert!(
        !health.version.is_empty(),
        "version must be stamped from the crate metadata"
    );
}

#[test]
fn the_health_version_is_this_builds_version() {
    assert_eq!(Health::ok().version, CRATE_VERSION);
}

#[test]
fn an_api_error_carries_its_message() {
    assert_eq!(ApiError::new("the roof is on fire").message, "the roof is on fire");
}

#[test]
fn graph_kinds_order_as_they_are_declared() {
    assert!(GraphKind::Vocabulary < GraphKind::System);
    assert!(GraphKind::System < GraphKind::Inferred);
    assert!(GraphKind::Inferred < GraphKind::Candidate);
}
