//! The health-aggregation engine: one version source, an ordered set of
//! dependency probes, and the deterministic derivation of an overall service
//! status from their outcomes.

pub mod service_status;
pub mod version;

use crate::health_check::service_status::{
    overall_status, Dependency, DependencyStatus, ServiceStatus,
};
use crate::health_check::version::{Versioned, VersionLoadError};
use vstd::prelude::*;

verus! {

/// The aggregator's outward-facing failure: identity resolution failed, so
/// no meaningful report could be produced. Carries a message only.
#[derive(Clone, Debug)]
pub struct HealthCheckError {
    message: String,
}

impl View for HealthCheckError {
    type V = Seq<char>;

    closed spec fn view(&self) -> Seq<char> {
        self.message@
    }
}

impl HealthCheckError {
    pub fn new(message: String) -> (r: Self)
        ensures
            r@ == message@,
    {
        HealthCheckError { message }
    }

    /// Wraps the message of a failed identity resolution, exactly as the
    /// aggregator reports it.
    pub fn from_version_load_error(err: &VersionLoadError) -> (r: Self)
        ensures
            r@ == "Failed to load version: "@ + err@,
    {
        let prefix = String::from_str("Failed to load version: ");
        HealthCheckError { message: prefix.concat(err.message().as_str()) }
    }

    pub fn message(&self) -> (r: &String)
        ensures
            r@ == self@,
    {
        &self.message
    }
}

/// Produces one full health report, or fails with a diagnostic error. Every
/// report that comes out of a checker satisfies the fold-rule invariant.
pub trait HealthChecker {
    fn check(&self) -> (r: Result<ServiceStatus, HealthCheckError>)
        ensures
            r matches Ok(s) ==> s@.well_formed(),
    ;
}

/// A pluggable probe for one named dependency. A probe never fails: any
/// underlying trouble is absorbed into a `Degraded` outcome for its
/// dependency, which is routine information for the aggregator.
pub trait DependencyHealthChecker {
    /// Which dependency this probe is bound to.
    spec fn dependency_spec(&self) -> Dependency;

    fn check(&self) -> (r: DependencyStatus)
        ensures
            r.dependency == self.dependency_spec(),
    ;
}

/// Runs every probe in the order given and collects their outcomes in that
/// same order, whatever each probe reports.
fn collect_outcomes<D: DependencyHealthChecker>(checkers: &Vec<D>) -> (r: Vec<
    DependencyStatus,
>)
    ensures
        r@.len() == checkers@.len(),
        forall|i: int|
            0 <= i < r@.len() ==> (#[trigger] r@[i]).dependency
                == checkers@[i].dependency_spec(),
{
    let mut outcomes: Vec<DependencyStatus> = Vec::new();
    let n = checkers.len();
    for idx in 0..n
        invariant
            n == checkers@.len(),
            outcomes@.len() == idx,
            forall|i: int|
                0 <= i < idx ==> (#[trigger] outcomes@[i]).dependency
                    == checkers@[i].dependency_spec(),
    {
        let outcome = checkers[idx].check();
        outcomes.push(outcome);
    }
    outcomes
}

/// The aggregator: resolves the build identity first, since it gates the
/// whole operation, then gathers every probe's outcome and folds them into
/// one report. The only failure it can report is identity resolution failure.
pub struct RusticSketchHealthChecker<V: Versioned, D: DependencyHealthChecker> {
    pub versioned: V,
    pub dependency_health_checkers: Vec<D>,
}

impl<V: Versioned, D: DependencyHealthChecker> RusticSketchHealthChecker<V, D> {
    pub fn new(versioned: V, dependency_health_checkers: Vec<D>) -> (r: Self)
        ensures
            r.versioned == versioned,
            r.dependency_health_checkers == dependency_health_checkers,
    {
        RusticSketchHealthChecker { versioned, dependency_health_checkers }
    }
}

impl<V: Versioned, D: DependencyHealthChecker> HealthChecker for RusticSketchHealthChecker<
    V,
    D,
> {
    /// Resolves the identity, and only on success runs the probes: a failed
    /// resolution short-circuits before any probe is consulted. The report
    /// lists one outcome per probe, in the order the probes were supplied,
    /// with the overall verdict derived by the fold rule.
    fn check(&self) -> (r: Result<ServiceStatus, HealthCheckError>)
        ensures
            r matches Ok(s) ==> {
                &&& s@.dependencies.len() == self.dependency_health_checkers@.len()
                &&& forall|i: int|
                    0 <= i < s@.dependencies.len() ==> (#[trigger] s@.dependencies[i]).dependency
                        == self.dependency_health_checkers@[i].dependency_spec()
                &&& s@.status == overall_status(s@.dependencies)
            },
            r matches Err(e) ==> exists|detail: Seq<char>|
                e@ == "Failed to load version: "@ + detail,
    {
        let version = match self.versioned.version() {
            Ok(version) => version,
            Err(err) => {
                let wrapped = HealthCheckError::from_version_load_error(&err);
                proof {
                    assert(wrapped@ == "Failed to load version: "@ + err@);
                }
                return Err(wrapped);
            },
        };
        let dependencies = collect_outcomes(&self.dependency_health_checkers);
        Ok(ServiceStatus::new(version, dependencies))
    }
}

} // verus!
