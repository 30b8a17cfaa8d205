use rustic_sketch::health_check::service_status::{Dependency, DependencyStatus, Status};
use rustic_sketch::health_check::version::{
    Build, Commit, Environment, Version, VersionLoadError, Versioned,
};
use rustic_sketch::health_check::{
    DependencyHealthChecker, HealthChecker, RusticSketchHealthChecker,
};

struct StubVersion {
    env: Environment,
    build: Build,
    commit: Commit,
}

impl Versioned for StubVersion {
    fn version(&self) -> Result<Version, VersionLoadError> {
        Ok(Version::new(
            self.env.clone(),
            self.build.clone(),
            self.commit.clone(),
        ))
    }
}

struct FailingVersion {
    message: String,
}

impl Versioned for FailingVersion {
    fn version(&self) -> Result<Version, VersionLoadError> {
        Err(VersionLoadError::new(self.message.clone()))
    }
}

struct StubDependencyHealthChecker {
    dependency: Dependency,
    status: Status,
}

impl DependencyHealthChecker for StubDependencyHealthChecker {
    // `dependency_spec` names the dependency this probe is bound to.
    fn dependency_spec(&self) -> Dependency {
        self.dependency
    }

    fn check(&self) -> DependencyStatus {
        DependencyStatus::new(self.dependency, self.status)
    }
}

struct PanickingProbe;

impl DependencyHealthChecker for PanickingProbe {
    fn dependency_spec(&self) -> Dependency {
        Dependency::Database
    }

    fn check(&self) -> DependencyStatus {
        panic!("a probe ran although identity resolution had already failed");
    }
}

fn stub_version() -> StubVersion {
    StubVersion {
        env: Environment::new("dev".to_string()),
        build: Build::new("feat.branch.108".to_string()),
        commit: Commit::new("c11e2d041c9b4ca66e241f8429e9a2876a8e0b18".to_string()),
    }
}

#[test]
fn returns_service_status() {
    let versioned = stub_version();
    let database_health_checker = StubDependencyHealthChecker {
        dependency: Dependency::Database,
        status: Status::Healthy,
    };
    let snitch_health_checker = StubDependencyHealthChecker {
        dependency: Dependency::Snitch,
        status: Status::Healthy,
    };

    let health_checker = RusticSketchHealthChecker::new(
        versioned,
        vec![database_health_checker, snitch_health_checker],
    );
    let result = health_checker.check().unwrap();

    assert_eq!(*result.status(), Status::Healthy);
}

#[test]
fn service_status_includes_version() {
    let env = Environment::new("dev".to_string());
    let build = Build::new("feat.branch.108".to_string());
    let commit = Commit::new("c11e2d041c9b4ca66e241f8429e9a2876a8e0b18".to_string());
    let versioned = StubVersion {
        env: env.clone(),
        build: build.clone(),
        commit: commit.clone(),
    };
    let database_health_checker = StubDependencyHealthChecker {
        dependency: Dependency::Database,
        status: Status::Healthy,
    };

    let health_checker = RusticSketchHealthChecker::new(versioned, vec![database_health_checker]);
    let service_status = health_checker.check().unwrap();
    let result = service_status.version();

    assert_eq!(*result.env(), env);
    assert_eq!(*result.build(), build);
    assert_eq!(*result.commit(), commit);
}

#[test]
fn aggregates_two_probes_in_order() {
    // VersionSource succeeds; one healthy and one degraded probe, in that
    // order: the report is degraded and keeps the probe order exactly.
    let health_checker = RusticSketchHealthChecker::new(
        stub_version(),
        vec![
            StubDependencyHealthChecker {
                dependency: Dependency::Database,
                status: Status::Healthy,
            },
            StubDependencyHealthChecker {
                dependency: Dependency::Snitch,
                status: Status::Degraded,
            },
        ],
    );
    let result = health_checker.check().unwrap();

    assert_eq!(*result.status(), Status::Degraded);
    assert_eq!(
        *result.dependencies(),
        vec![
            DependencyStatus::new(Dependency::Database, Status::Healthy),
            DependencyStatus::new(Dependency::Snitch, Status::Degraded),
        ]
    );
    assert_eq!(*result.version().env(), Environment::new("dev".to_string()));
    assert_eq!(
        *result.version().build(),
        Build::new("feat.branch.108".to_string())
    );
}

#[test]
fn preserves_probe_order() {
    let probes: Vec<StubDependencyHealthChecker> = vec![
        StubDependencyHealthChecker {
            dependency: Dependency::Snitch,
            status: Status::Healthy,
        },
        StubDependencyHealthChecker {
            dependency: Dependency::Auth0,
            status: Status::Healthy,
        },
        StubDependencyHealthChecker {
            dependency: Dependency::Database,
            status: Status::Healthy,
        },
    ];
    let health_checker = RusticSketchHealthChecker::new(stub_version(), probes);
    let result = health_checker.check().unwrap();

    let names: Vec<Dependency> = result
        .dependencies()
        .iter()
        .map(|d| *d.dependency())
        .collect();
    assert_eq!(
        names,
        vec![Dependency::Snitch, Dependency::Auth0, Dependency::Database]
    );
}

#[test]
fn short_circuits_on_version_failure() {
    // The panicking probes prove that no probe is consulted once identity
    // resolution has failed.
    let health_checker = RusticSketchHealthChecker::new(
        FailingVersion {
            message: "something went wrong".to_string(),
        },
        vec![PanickingProbe, PanickingProbe],
    );
    let result = health_checker.check();

    let err = result.err().unwrap();
    assert_eq!(
        err.message().as_str(),
        "Failed to load version: something went wrong"
    );
}

#[test]
fn empty_probe_set_is_healthy() {
    let probes: Vec<StubDependencyHealthChecker> = Vec::new();
    let health_checker = RusticSketchHealthChecker::new(stub_version(), probes);
    let result = health_checker.check().unwrap();

    assert_eq!(*result.status(), Status::Healthy);
    assert!(result.dependencies().is_empty());
}
