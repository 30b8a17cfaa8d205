//! The service-status value and the fold rule that derives the overall
//! verdict from the individual dependency outcomes.

use crate::health_check::version::{Version, VersionView};
use vstd::prelude::*;

verus! {

/// The two-valued health verdict. There is no "unknown" state: a probe must
/// resolve to one of these.
#[derive(Clone, Copy, Debug, PartialEq, Eq, Hash, Structural)]
pub enum Status {
    Healthy,
    Degraded,
}

/// The closed set of known dependency kinds. Free-form names exist only at
/// the wire boundary, through the codec's name table.
#[derive(Clone, Copy, Debug, PartialEq, Eq, Hash, Structural)]
pub enum Dependency {
    Auth0,
    Database,
    Snitch,
}

/// The outcome reported by one dependency probe: which dependency, and the
/// status it resolved to.
#[derive(Clone, Copy, Debug, PartialEq, Eq, Hash, Structural)]
pub struct DependencyStatus {
    pub dependency: Dependency,
    pub status: Status,
}

impl DependencyStatus {
    pub fn new(dependency: Dependency, status: Status) -> (r: Self)
        ensures
            r == (DependencyStatus { dependency, status }),
    {
        DependencyStatus { dependency, status }
    }

    pub fn dependency(&self) -> (r: &Dependency)
        ensures
            *r == self.dependency,
    {
        &self.dependency
    }

    pub fn status(&self) -> (r: &Status)
        ensures
            *r == self.status,
    {
        &self.status
    }
}

/// Whether every outcome in the sequence is healthy. Vacuously true of the
/// empty sequence.
pub open spec fn all_healthy(dependencies: Seq<DependencyStatus>) -> bool {
    forall|i: int| 0 <= i < dependencies.len() ==> dependencies[i].status == Status::Healthy
}

/// The fold rule: the overall verdict is `Healthy` exactly when every
/// dependency outcome is `Healthy`.
pub open spec fn overall_status(dependencies: Seq<DependencyStatus>) -> Status {
    if all_healthy(dependencies) {
        Status::Healthy
    } else {
        Status::Degraded
    }
}

/// The fold invariant, stated on its own: the derived verdict is `Healthy`
/// if and only if every outcome is `Healthy` (vacuously so for no outcomes),
/// and a single `Degraded` outcome forces the verdict to `Degraded`.
pub proof fn lemma_fold_rule(dependencies: Seq<DependencyStatus>)
    ensures
        overall_status(dependencies) == Status::Healthy <==> all_healthy(dependencies),
        (exists|i: int|
            0 <= i < dependencies.len() && dependencies[i].status == Status::Degraded)
            ==> overall_status(dependencies) == Status::Degraded,
{
    if exists|i: int|
        0 <= i < dependencies.len() && dependencies[i].status == Status::Degraded {
        let i = choose|i: int|
            0 <= i < dependencies.len() && dependencies[i].status == Status::Degraded;
        assert(dependencies[i].status != Status::Healthy);
    }
}

/// The mathematical value of a `ServiceStatus`.
#[verifier::ext_equal]
pub ghost struct ServiceStatusView {
    pub version: VersionView,
    pub status: Status,
    pub dependencies: Seq<DependencyStatus>,
}

impl ServiceStatusView {
    /// The derivation invariant: the stored verdict is exactly the fold of
    /// the dependency outcomes.
    pub open spec fn well_formed(self) -> bool {
        self.status == overall_status(self.dependencies)
    }
}

/// The aggregate health report: the build identity, the derived overall
/// verdict, and the dependency outcomes in the order their probes were
/// supplied. The verdict is always recomputed from the outcomes, never set
/// directly.
#[derive(Clone, Debug, PartialEq)]
pub struct ServiceStatus {
    version: Version,
    status: Status,
    dependencies: Vec<DependencyStatus>,
}

impl View for ServiceStatus {
    type V = ServiceStatusView;

    closed spec fn view(&self) -> ServiceStatusView {
        ServiceStatusView {
            version: self.version@,
            status: self.status,
            dependencies: self.dependencies@,
        }
    }
}

impl ServiceStatus {
    /// Builds a report from an identity and the collected outcomes, deriving
    /// the overall verdict by the fold rule and keeping the outcomes in the
    /// order they were given.
    pub fn new(version: Version, dependencies: Vec<DependencyStatus>) -> (r: Self)
        ensures
            r@.version == version@,
            r@.dependencies == dependencies@,
            r@.status == overall_status(dependencies@),
            r@.well_formed(),
    {
        let mut overall = Status::Healthy;
        let n = dependencies.len();
        for idx in 0..n
            invariant
                n == dependencies.len(),
                overall == overall_status(dependencies@.take(idx as int)),
        {
            let healthy_so_far = overall == Status::Healthy
                && dependencies[idx].status == Status::Healthy;
            proof {
                assert(dependencies@.take(idx + 1).drop_last() =~= dependencies@.take(
                    idx as int,
                ));
                assert(dependencies@.take(idx + 1).last() == dependencies@[idx as int]);
                if healthy_so_far {
                    assert forall|i: int| 0 <= i < idx + 1 implies (#[trigger] dependencies@.take(
                        idx + 1,
                    )[i]).status == Status::Healthy by {
                        if i < idx {
                            assert(dependencies@.take(idx as int)[i].status == Status::Healthy);
                        }
                        assert(dependencies@.take(idx + 1)[i] == dependencies@[i]);
                    }
                } else {
                    if overall != Status::Healthy {
                        assert(!all_healthy(dependencies@.take(idx as int)));
                        let j = choose|j: int|
                            0 <= j < idx && dependencies@.take(idx as int)[j].status
                                != Status::Healthy;
                        assert(dependencies@.take(idx + 1)[j].status != Status::Healthy);
                    } else {
                        assert(dependencies@.take(idx + 1)[idx as int].status != Status::Healthy);
                    }
                }
            }
            overall = if healthy_so_far {
                Status::Healthy
            } else {
                Status::Degraded
            };
        }
        proof {
            assert(dependencies@.take(n as int) =~= dependencies@);
        }
        ServiceStatus { version, status: overall, dependencies }
    }

    pub fn version(&self) -> (r: &Version)
        ensures
            r@ == self@.version,
    {
        &self.version
    }

    pub fn status(&self) -> (r: &Status)
        ensures
            *r == self@.status,
    {
        &self.status
    }

    pub fn dependencies(&self) -> (r: &Vec<DependencyStatus>)
        ensures
            r@ == self@.dependencies,
    {
        &self.dependencies
    }
}

} // verus!
