use vstd::prelude::*;
use vstd::string::*;

use crate::cluster::{spec_failing_keys, ClusterOutcomes, ClusterResourceV, ClusterState, ResourceKind};
use crate::errors::KubeCTFError;
use crate::forms::{containers_view, Container, ContainerV};

verus! {

/// The provisioning provider: turns a container specification and an
/// instance id into the correlated infrastructure objects, and tears them
/// down again. A provider holds no per-instance state between calls; all
/// state lives in the orchestration target, which the caller passes in.
/// Which variant backs the interface is chosen once at process start.
pub trait Provider {
    /// What one create call did to the target, as a relation between the
    /// state before, the state after, and whether the call succeeded.
    spec fn create_post(
        &self,
        pre: Seq<ClusterResourceV>,
        post: Seq<ClusterResourceV>,
        containers: Seq<ContainerV>,
        instance_id: Seq<char>,
        ok: bool,
        failing: Set<(ResourceKind, Seq<char>)>,
    ) -> bool;

    /// What one delete call did to the target.
    spec fn delete_post(
        &self,
        pre: Seq<ClusterResourceV>,
        post: Seq<ClusterResourceV>,
        instance_id: Seq<char>,
        ok: bool,
    ) -> bool;

    /// Materializes the instance's infrastructure in the target, behaving
    /// as `outcomes` says the target behaves.
    fn create_instnace(
        &self,
        cluster: &mut ClusterState,
        spec: &Vec<Container>,
        instance_id: &String,
        outcomes: &ClusterOutcomes,
    ) -> (r: core::result::Result<(), KubeCTFError>)
        ensures
            self.create_post(
                old(cluster)@,
                final(cluster)@,
                containers_view(spec@),
                instance_id@,
                r is Ok,
                spec_failing_keys(outcomes),
            ),
            r matches Err(e) ==> e is DeployError,
    ;

    /// Tears the instance's infrastructure down.
    fn delete_instnace(&self, cluster: &mut ClusterState, instance_id: &String) -> (r: core::result::Result<
        (),
        KubeCTFError,
    >)
        ensures
            self.delete_post(old(cluster)@, final(cluster)@, instance_id@, r is Ok),
    ;
}

/// The local-container-engine variant: a stub that keeps the provider
/// contract's shape but implements no provisioning yet. Every call reports
/// a deploy error and leaves the target untouched.
#[derive(Clone, Copy, Debug, PartialEq, Eq, Structural)]
pub struct DockerProvider;

impl DockerProvider {
    pub fn new() -> (r: Self)
        ensures
            r == DockerProvider,
    {
        DockerProvider
    }
}

impl Default for DockerProvider {
    fn default() -> (r: Self)
        ensures
            r == DockerProvider,
    {
        DockerProvider
    }
}

impl Provider for DockerProvider {
    open spec fn create_post(
        &self,
        pre: Seq<ClusterResourceV>,
        post: Seq<ClusterResourceV>,
        containers: Seq<ContainerV>,
        instance_id: Seq<char>,
        ok: bool,
        failing: Set<(ResourceKind, Seq<char>)>,
    ) -> bool {
        !ok && post == pre
    }

    open spec fn delete_post(
        &self,
        pre: Seq<ClusterResourceV>,
        post: Seq<ClusterResourceV>,
        instance_id: Seq<char>,
        ok: bool,
    ) -> bool {
        !ok && post == pre
    }

    fn create_instnace(
        &self,
        cluster: &mut ClusterState,
        spec: &Vec<Container>,
        instance_id: &String,
        outcomes: &ClusterOutcomes,
    ) -> (r: core::result::Result<(), KubeCTFError>) {
        Err(KubeCTFError::DeployError(String::from_str("local container engine provisioning is not implemented")))
    }

    fn delete_instnace(&self, cluster: &mut ClusterState, instance_id: &String) -> (r: core::result::Result<
        (),
        KubeCTFError,
    >) {
        Err(KubeCTFError::DeployError(String::from_str("local container engine provisioning is not implemented")))
    }
}

} // verus!
