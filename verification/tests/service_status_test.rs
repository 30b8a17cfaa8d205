use rustic_sketch::health_check::service_status::{
    Dependency, DependencyStatus, ServiceStatus, Status,
};
use rustic_sketch::health_check::version::{Build, Commit, Environment, Version};

fn sample_version() -> Version {
    Version::new(
        Environment::new("dev".to_string()),
        Build::new("108".to_string()),
        Commit::new("c11e2d041c9b4ca66e241f8429e9a2876a8e0b18".to_string()),
    )
}

#[test]
fn no_dependencies_is_healthy() {
    let result = ServiceStatus::new(sample_version(), Vec::new());
    assert_eq!(*result.status(), Status::Healthy);
}

#[test]
fn all_healthy_dependencies_is_healthy() {
    let dependencies = vec![
        DependencyStatus::new(Dependency::Auth0, Status::Healthy),
        DependencyStatus::new(Dependency::Database, Status::Healthy),
        DependencyStatus::new(Dependency::Snitch, Status::Healthy),
    ];
    let result = ServiceStatus::new(sample_version(), dependencies);
    assert_eq!(*result.status(), Status::Healthy);
}

#[test]
fn single_degraded_dependency_degrades_the_service() {
    let dependencies = vec![
        DependencyStatus::new(Dependency::Auth0, Status::Healthy),
        DependencyStatus::new(Dependency::Database, Status::Degraded),
        DependencyStatus::new(Dependency::Snitch, Status::Healthy),
    ];
    let result = ServiceStatus::new(sample_version(), dependencies);
    assert_eq!(*result.status(), Status::Degraded);
}

#[test]
fn keeps_version_and_dependency_order() {
    let dependencies = vec![
        DependencyStatus::new(Dependency::Snitch, Status::Degraded),
        DependencyStatus::new(Dependency::Database, Status::Healthy),
    ];
    let result = ServiceStatus::new(sample_version(), dependencies.clone());
    assert_eq!(*result.version(), sample_version());
    assert_eq!(*result.dependencies(), dependencies);
}

#[test]
fn dependency_status_exposes_its_parts() {
    let outcome = DependencyStatus::new(Dependency::Database, Status::Degraded);
    assert_eq!(*outcome.dependency(), Dependency::Database);
    assert_eq!(*outcome.status(), Status::Degraded);
}
