use vstd::prelude::*;
use vstd::string::*;

use crate::cluster::{
    clone_envs, clone_resources, lemma_apply_plan_concat, lemma_plan_ok_concat, lemma_plan_singleton,
    lemma_strip_apply_plan, spec_apply_create, spec_apply_plan, spec_body_kind, spec_contains_key, spec_failing_keys, spec_key,
    spec_plan_ok, spec_strip, ClusterOutcomes, ClusterResource, ClusterResourceV, ClusterState, EgressRule, IngressRule,
    ResourceBody, ResourceBodyV, ResourceKind,
};
use crate::errors::KubeCTFError;
use crate::forms::{containers_view, Container, ContainerV, PortV, Protocols};
use crate::providers::Provider;
use crate::models::LinkV;
use crate::utils::{
    hyph_join, port_route_name, spec_container_links, spec_derived_name, spec_domain_or_port, spec_instance_name,
    spec_ports_links,
};

verus! {

/// The name under which a container runs inside its workload: the declared
/// name, or a fixed fallback when the declaration leaves it empty.
pub open spec fn spec_container_name_or_default(name: Seq<char>) -> Seq<char> {
    if name.len() == 0 {
        "container"@
    } else {
        name
    }
}

/// The workload object for one container.
pub open spec fn spec_deployment_resource(c: ContainerV, instance_id: Seq<char>) -> ClusterResourceV {
    ClusterResourceV {
        name: spec_instance_name(c.name, instance_id),
        instance_id: instance_id,
        instance_name: spec_instance_name(c.name, instance_id),
        body: ResourceBodyV::Deployment {
            container_name: spec_container_name_or_default(c.name),
            image: c.image,
            envs: c.envs,
            resources: c.resources,
        },
    }
}

/// The service ports: one entry per declared port.
pub open spec fn spec_service_ports(ports: Seq<PortV>) -> Seq<int> {
    ports.map_values(|p: PortV| p.number)
}

/// The service object exposing a container's ports.
pub open spec fn spec_service_resource(c: ContainerV, instance_id: Seq<char>) -> ClusterResourceV {
    ClusterResourceV {
        name: spec_instance_name(c.name, instance_id),
        instance_id: instance_id,
        instance_name: spec_instance_name(c.name, instance_id),
        body: ResourceBodyV::Service { ports: spec_service_ports(c.ports) },
    }
}

/// The egress rules of a container's network policy: cluster DNS always;
/// the public internet, private ranges excluded, only when the container
/// asks for external network access; and the sibling pods of the same
/// instance always.
pub open spec fn spec_egress_rules(allow_external_network: bool) -> Seq<EgressRule> {
    if allow_external_network {
        seq![EgressRule::ClusterDns, EgressRule::ExternalNetwork, EgressRule::SameInstance]
    } else {
        seq![EgressRule::ClusterDns, EgressRule::SameInstance]
    }
}

/// The ingress rules of a container's network policy: the ingress
/// controller's pods and the sibling pods of the same instance.
pub open spec fn spec_ingress_rules() -> Seq<IngressRule> {
    seq![IngressRule::IngressController, IngressRule::SameInstance]
}

/// The network policy object for one container.
pub open spec fn spec_network_policy_resource(c: ContainerV, instance_id: Seq<char>) -> ClusterResourceV {
    ClusterResourceV {
        name: spec_instance_name(c.name, instance_id),
        instance_id: instance_id,
        instance_name: spec_instance_name(c.name, instance_id),
        body: ResourceBodyV::NetworkPolicy {
            egress: spec_egress_rules(c.allow_external_network),
            ingress: spec_ingress_rules(),
        },
    }
}

/// A host-rule route object: matches the host built from the route name
/// and the base domain, forwards to the instance's service port, under the
/// shared wildcard certificate.
pub open spec fn spec_http_route(route_name: Seq<char>, instance_name: Seq<char>, instance_id: Seq<char>, port: int, base_domain: Seq<char>) -> ClusterResourceV {
    ClusterResourceV {
        name: route_name,
        instance_id: instance_id,
        instance_name: instance_name,
        body: ResourceBodyV::IngressRoute {
            port: port,
            match_rule: "Host(`"@ + route_name + seq!['.'] + base_domain + "`)"@,
            service_name: instance_name,
            tls_secret: "wildcard-cert"@,
        },
    }
}

/// An SNI-matched TCP route object, otherwise like the host-rule route.
pub open spec fn spec_tcp_route(route_name: Seq<char>, instance_name: Seq<char>, instance_id: Seq<char>, port: int, base_domain: Seq<char>) -> ClusterResourceV {
    ClusterResourceV {
        name: route_name,
        instance_id: instance_id,
        instance_name: instance_name,
        body: ResourceBodyV::IngressRouteTCP {
            port: port,
            match_rule: "HostSNI(`"@ + route_name + seq!['.'] + base_domain + "`)"@,
            service_name: instance_name,
            tls_secret: "wildcard-cert"@,
        },
    }
}

/// The route object for one port: host-matched for HTTP, SNI-matched for
/// TCP, named by the shared naming rule.
pub open spec fn spec_route_resource(p: PortV, c: ContainerV, instance_id: Seq<char>, base_domain: Seq<char>) -> ClusterResourceV {
    let route_name = spec_derived_name(spec_domain_or_port(p), c.name, instance_id);
    let instance_name = spec_instance_name(c.name, instance_id);
    match p.protocol {
        Protocols::HTTP => spec_http_route(route_name, instance_name, instance_id, p.number, base_domain),
        Protocols::TCP => spec_tcp_route(route_name, instance_name, instance_id, p.number, base_domain),
    }
}

/// The route objects for all of one container's ports, in port order.
pub open spec fn spec_routes_plan(c: ContainerV, instance_id: Seq<char>, base_domain: Seq<char>) -> Seq<ClusterResourceV> {
    c.ports.map_values(|p: PortV| spec_route_resource(p, c, instance_id, base_domain))
}

/// The service part of a container's plan: one service when the container
/// declares ports, nothing otherwise.
pub open spec fn spec_service_plan(c: ContainerV, instance_id: Seq<char>) -> Seq<ClusterResourceV> {
    if c.ports.len() > 0 {
        seq![spec_service_resource(c, instance_id)]
    } else {
        Seq::empty()
    }
}

/// Everything one container materializes: workload, service (when ports
/// exist), network policy, and one route per port.
pub open spec fn spec_container_plan(c: ContainerV, instance_id: Seq<char>, base_domain: Seq<char>) -> Seq<ClusterResourceV> {
    seq![spec_deployment_resource(c, instance_id)] + spec_service_plan(c, instance_id) + seq![
        spec_network_policy_resource(c, instance_id),
    ] + spec_routes_plan(c, instance_id, base_domain)
}

/// Everything an instance materializes, container by container.
pub open spec fn spec_instance_plan(containers: Seq<ContainerV>, instance_id: Seq<char>, base_domain: Seq<char>) -> Seq<
    ClusterResourceV,
>
    decreases containers.len(),
{
    if containers.len() == 0 {
        Seq::empty()
    } else {
        spec_container_plan(containers[0], instance_id, base_domain) + spec_instance_plan(
            containers.drop_first(),
            instance_id,
            base_domain,
        )
    }
}

/// Every object of a container's plan carries the instance-id label.
pub proof fn lemma_container_plan_labeled(c: ContainerV, instance_id: Seq<char>, base_domain: Seq<char>)
    ensures
        forall|i: int|
            0 <= i < spec_container_plan(c, instance_id, base_domain).len() ==> (#[trigger] spec_container_plan(
                c,
                instance_id,
                base_domain,
            )[i]).instance_id == instance_id,
{
    let plan = spec_container_plan(c, instance_id, base_domain);
    assert forall|i: int| 0 <= i < plan.len() implies (#[trigger] plan[i]).instance_id == instance_id by {
        let head = seq![spec_deployment_resource(c, instance_id)] + spec_service_plan(c, instance_id) + seq![
            spec_network_policy_resource(c, instance_id),
        ];
        if i < head.len() {
        } else {
            assert(plan[i] == spec_routes_plan(c, instance_id, base_domain)[i - head.len()]);
        }
    }
}

/// Every object of an instance's plan carries the instance-id label.
pub proof fn lemma_instance_plan_labeled(containers: Seq<ContainerV>, instance_id: Seq<char>, base_domain: Seq<char>)
    ensures
        forall|i: int|
            0 <= i < spec_instance_plan(containers, instance_id, base_domain).len() ==> (
            #[trigger] spec_instance_plan(containers, instance_id, base_domain)[i]).instance_id == instance_id,
    decreases containers.len(),
{
    if containers.len() > 0 {
        lemma_container_plan_labeled(containers[0], instance_id, base_domain);
        lemma_instance_plan_labeled(containers.drop_first(), instance_id, base_domain);
        let plan = spec_instance_plan(containers, instance_id, base_domain);
        let head = spec_container_plan(containers[0], instance_id, base_domain);
        let tail = spec_instance_plan(containers.drop_first(), instance_id, base_domain);
        assert forall|i: int| 0 <= i < plan.len() implies (#[trigger] plan[i]).instance_id == instance_id by {
            if i < head.len() {
                assert(plan[i] == head[i]);
            } else {
                assert(plan[i] == tail[i - head.len()]);
            }
        }
    }
}

/// The plan of a container-list prefix, one container further.
pub proof fn lemma_instance_plan_take_step(containers: Seq<ContainerV>, instance_id: Seq<char>, base_domain: Seq<char>, i: int)
    requires
        0 <= i < containers.len(),
    ensures
        spec_instance_plan(containers.take(i + 1), instance_id, base_domain) == spec_instance_plan(
            containers.take(i),
            instance_id,
            base_domain,
        ) + spec_container_plan(containers[i], instance_id, base_domain),
    decreases i,
{
    let pre = containers.take(i + 1);
    if i == 0 {
        assert(pre.drop_first() =~= containers.take(0));
        assert(spec_instance_plan(pre, instance_id, base_domain) =~= spec_instance_plan(
            containers.take(0),
            instance_id,
            base_domain,
        ) + spec_container_plan(containers[0], instance_id, base_domain));
    } else {
        lemma_instance_plan_take_step(containers.drop_first(), instance_id, base_domain, i - 1);
        assert(pre.drop_first() =~= containers.drop_first().take(i));
        assert(containers.take(i).drop_first() =~= containers.drop_first().take(i - 1));
        assert(containers.drop_first()[i - 1] == containers[i]);
        assert(spec_instance_plan(pre, instance_id, base_domain) =~= spec_instance_plan(
            containers.take(i),
            instance_id,
            base_domain,
        ) + spec_container_plan(containers[i], instance_id, base_domain));
    }
}

/// An instance plan splits at any container boundary.
pub proof fn lemma_instance_plan_split(containers: Seq<ContainerV>, instance_id: Seq<char>, base_domain: Seq<char>, n: int)
    requires
        0 <= n <= containers.len(),
    ensures
        spec_instance_plan(containers, instance_id, base_domain) == spec_instance_plan(
            containers.take(n),
            instance_id,
            base_domain,
        ) + spec_instance_plan(containers.skip(n), instance_id, base_domain),
    decreases n,
{
    if n == 0 {
        assert(containers.take(0) =~= Seq::<ContainerV>::empty());
        assert(containers.skip(0) =~= containers);
        assert(spec_instance_plan(containers, instance_id, base_domain) =~= spec_instance_plan(
            containers.take(0),
            instance_id,
            base_domain,
        ) + spec_instance_plan(containers.skip(0), instance_id, base_domain));
    } else {
        lemma_instance_plan_split(containers.drop_first(), instance_id, base_domain, n - 1);
        assert(containers.take(n).drop_first() =~= containers.drop_first().take(n - 1));
        assert(containers.skip(n) =~= containers.drop_first().skip(n - 1));
        assert(containers.take(n)[0] == containers[0]);
        assert(containers.take(n).len() > 0);
        assert(spec_instance_plan(containers, instance_id, base_domain) =~= spec_instance_plan(
            containers.take(n),
            instance_id,
            base_domain,
        ) + spec_instance_plan(containers.skip(n), instance_id, base_domain));
    }
}

/// A failure inside one container's plan fails the whole instance plan.
proof fn lemma_fail_container(pre: Seq<ClusterResourceV>, cv: Seq<ContainerV>, ci: int, instance_id: Seq<char>, base_domain: Seq<char>, failing: Set<(ResourceKind, Seq<char>)>)
    requires
        0 <= ci < cv.len(),
        spec_plan_ok(pre, spec_instance_plan(cv.take(ci), instance_id, base_domain), failing),
        !spec_plan_ok(
            spec_apply_plan(pre, spec_instance_plan(cv.take(ci), instance_id, base_domain)),
            spec_container_plan(cv[ci], instance_id, base_domain),
            failing,
        ),
    ensures
        !spec_plan_ok(pre, spec_instance_plan(cv, instance_id, base_domain), failing),
{
    let prefix = spec_instance_plan(cv.take(ci), instance_id, base_domain);
    let cplan = spec_container_plan(cv[ci], instance_id, base_domain);
    let tailcv = cv.skip(ci);
    let tail = spec_instance_plan(tailcv, instance_id, base_domain);
    lemma_instance_plan_split(cv, instance_id, base_domain, ci);
    assert(tailcv[0] == cv[ci]);
    assert(tailcv.len() > 0);
    assert(tail == cplan + spec_instance_plan(tailcv.drop_first(), instance_id, base_domain));
    let s0 = spec_apply_plan(pre, prefix);
    lemma_plan_ok_concat(pre, prefix, tail, failing);
    lemma_plan_ok_concat(
        s0,
        cplan,
        spec_instance_plan(tailcv.drop_first(), instance_id, base_domain),
        failing,
    );
}

/// Stripping the instance label undoes any applied prefix of its plan.
proof fn lemma_strip_prefix(pre: Seq<ClusterResourceV>, cv: Seq<ContainerV>, ci: int, instance_id: Seq<char>, base_domain: Seq<char>)
    requires
        0 <= ci <= cv.len(),
    ensures
        spec_strip(
            spec_apply_plan(pre, spec_instance_plan(cv.take(ci), instance_id, base_domain)),
            instance_id,
        ) == spec_strip(pre, instance_id),
{
    lemma_instance_plan_labeled(cv.take(ci), instance_id, base_domain);
    lemma_strip_apply_plan(pre, spec_instance_plan(cv.take(ci), instance_id, base_domain), instance_id);
}

/// The Kubernetes-backed provisioning provider. It holds only the
/// configured base domain under which route hosts live; all instance state
/// lives in the orchestration target itself.
pub struct KubernetesProvider {
    pub base_domain: String,
}

impl KubernetesProvider {
    /// A provider for the given base domain.
    pub fn new(base_domain: String) -> (r: Self)
        ensures
            r.base_domain@ == base_domain@,
    {
        KubernetesProvider { base_domain }
    }

    /// Creates the workload object for one container: an existing one is a
    /// conflict answered as success.
    fn create_deployment(&self, cluster: &mut ClusterState, container: &Container, instance_id: &String, outcomes: &ClusterOutcomes) -> (r: core::result::Result<(), KubeCTFError>)
        ensures
            r is Ok <==> (spec_contains_key(old(cluster)@, spec_key(spec_deployment_resource(container@, instance_id@)))
                || !spec_failing_keys(outcomes).contains(spec_key(spec_deployment_resource(container@, instance_id@)))),
            r is Ok ==> final(cluster)@ == spec_apply_create(
                old(cluster)@,
                spec_deployment_resource(container@, instance_id@),
            ),
            r matches Err(e) ==> final(cluster)@ == old(cluster)@ && e is DeployError,
    {
        let container_name = if container.name.as_str().unicode_len() == 0 {
            String::from_str("container")
        } else {
            container.name.clone()
        };
        let instance_name = hyph_join(container.name.as_str(), instance_id.as_str());
        let resource = ClusterResource {
            name: instance_name.clone(),
            instance_id: instance_id.clone(),
            instance_name: instance_name,
            body: ResourceBody::Deployment {
                container_name,
                image: container.image.clone(),
                envs: clone_envs(&container.envs),
                resources: clone_resources(&container.resources),
            },
        };
        assert(resource@ == spec_deployment_resource(container@, instance_id@));
        if cluster.create(resource, outcomes) {
            Ok(())
        } else {
            Err(KubeCTFError::DeployError(String::from_str("Failed to create deployment")))
        }
    }

    /// Creates the service object exposing a container's ports; a
    /// container without ports needs no service and succeeds immediately.
    fn create_service(&self, cluster: &mut ClusterState, container: &Container, instance_id: &String, outcomes: &ClusterOutcomes) -> (r: core::result::Result<(), KubeCTFError>)
        ensures
            r is Ok <==> spec_plan_ok(old(cluster)@, spec_service_plan(container@, instance_id@), spec_failing_keys(outcomes)),
            r is Ok ==> final(cluster)@ == spec_apply_plan(old(cluster)@, spec_service_plan(container@, instance_id@)),
            r matches Err(e) ==> final(cluster)@ == old(cluster)@ && e is DeployError,
    {
        let ghost svc_plan = spec_service_plan(container@, instance_id@);
        if container.ports.len() == 0 {
            assert(svc_plan =~= Seq::<ClusterResourceV>::empty());
            return Ok(());
        }
        let instance_name = hyph_join(container.name.as_str(), instance_id.as_str());
        let mut ports: Vec<i32> = Vec::new();
        let mut i: usize = 0;
        while i < container.ports.len()
            invariant
                0 <= i <= container.ports@.len(),
                ports@.map_values(|p: i32| p as int) == spec_service_ports(container@.ports).take(i as int),
            decreases container.ports@.len() - i,
        {
            ports.push(container.ports[i].number);
            proof {
                assert(ports@.map_values(|p: i32| p as int) =~= spec_service_ports(container@.ports).take(i + 1));
            }
            i = i + 1;
        }
        proof {
            assert(spec_service_ports(container@.ports).take(container.ports@.len() as int) =~= spec_service_ports(
                container@.ports,
            ));
        }
        let resource = ClusterResource {
            name: instance_name.clone(),
            instance_id: instance_id.clone(),
            instance_name: instance_name,
            body: ResourceBody::Service { ports },
        };
        assert(resource@ == spec_service_resource(container@, instance_id@));
        let ghost rv = resource@;
        let ok = cluster.create(resource, outcomes);
        proof {
            let failing = spec_failing_keys(outcomes);
            assert(svc_plan.len() == 1);
            assert(svc_plan[0] == rv);
            assert(svc_plan.drop_first() =~= Seq::<ClusterResourceV>::empty());
            assert(spec_plan_ok(spec_apply_create(old(cluster)@, svc_plan[0]), svc_plan.drop_first(), failing));
            if ok {
                assert(spec_apply_plan(old(cluster)@, svc_plan) == spec_apply_plan(
                    spec_apply_create(old(cluster)@, svc_plan[0]),
                    svc_plan.drop_first(),
                ));
            }
        }
        if ok {
            Ok(())
        } else {
            Err(KubeCTFError::DeployError(String::from_str("Failed to create service")))
        }
    }

    /// Creates the network policy object for one container: DNS egress, the
    /// optional external-network egress with private ranges excluded,
    /// intra-instance traffic both ways, and ingress from the controller.
    fn create_network_policy(&self, cluster: &mut ClusterState, container: &Container, instance_id: &String, outcomes: &ClusterOutcomes) -> (r: core::result::Result<(), KubeCTFError>)
        ensures
            r is Ok <==> (spec_contains_key(
                old(cluster)@,
                spec_key(spec_network_policy_resource(container@, instance_id@)),
            ) || !spec_failing_keys(outcomes).contains(spec_key(spec_network_policy_resource(container@, instance_id@)))),
            r is Ok ==> final(cluster)@ == spec_apply_create(
                old(cluster)@,
                spec_network_policy_resource(container@, instance_id@),
            ),
            r matches Err(e) ==> final(cluster)@ == old(cluster)@ && e is DeployError,
    {
        let instance_name = hyph_join(container.name.as_str(), instance_id.as_str());
        let mut egress: Vec<EgressRule> = Vec::new();
        egress.push(EgressRule::ClusterDns);
        if container.allow_external_network {
            egress.push(EgressRule::ExternalNetwork);
        }
        egress.push(EgressRule::SameInstance);
        let mut ingress: Vec<IngressRule> = Vec::new();
        ingress.push(IngressRule::IngressController);
        ingress.push(IngressRule::SameInstance);
        proof {
            assert(egress@ =~= spec_egress_rules(container@.allow_external_network));
            assert(ingress@ =~= spec_ingress_rules());
        }
        let resource = ClusterResource {
            name: instance_name.clone(),
            instance_id: instance_id.clone(),
            instance_name: instance_name,
            body: ResourceBody::NetworkPolicy { egress, ingress },
        };
        assert(resource@ == spec_network_policy_resource(container@, instance_id@));
        if cluster.create(resource, outcomes) {
            Ok(())
        } else {
            Err(KubeCTFError::DeployError(String::from_str("Failed to create network policy")))
        }
    }
}

impl KubernetesProvider {
    /// Creates one host-rule route object.
    fn create_ingress_route(&self, cluster: &mut ClusterState, instance_name: &String, ingress_name: &String, instance_id: &String, port: i32, outcomes: &ClusterOutcomes) -> (r: core::result::Result<(), KubeCTFError>)
        ensures
            r is Ok <==> (spec_contains_key(
                old(cluster)@,
                spec_key(spec_http_route(ingress_name@, instance_name@, instance_id@, port as int, self.base_domain@)),
            ) || !spec_failing_keys(outcomes).contains(
                spec_key(spec_http_route(ingress_name@, instance_name@, instance_id@, port as int, self.base_domain@)),
            )),
            r is Ok ==> final(cluster)@ == spec_apply_create(
                old(cluster)@,
                spec_http_route(ingress_name@, instance_name@, instance_id@, port as int, self.base_domain@),
            ),
            r matches Err(e) ==> final(cluster)@ == old(cluster)@ && e is DeployError,
    {
        let mut match_rule = String::from_str("Host(`");
        match_rule.append(ingress_name.as_str());
        proof {
            reveal_strlit(".");
        }
        match_rule.append(".");
        match_rule.append(self.base_domain.as_str());
        match_rule.append("`)");
        assert(match_rule@ =~= "Host(`"@ + ingress_name@ + seq!['.'] + self.base_domain@ + "`)"@);
        let resource = ClusterResource {
            name: ingress_name.clone(),
            instance_id: instance_id.clone(),
            instance_name: instance_name.clone(),
            body: ResourceBody::IngressRoute {
                port,
                match_rule,
                service_name: instance_name.clone(),
                tls_secret: String::from_str("wildcard-cert"),
            },
        };
        assert(resource@ == spec_http_route(
            ingress_name@,
            instance_name@,
            instance_id@,
            port as int,
            self.base_domain@,
        ));
        if cluster.create(resource, outcomes) {
            Ok(())
        } else {
            Err(KubeCTFError::DeployError(String::from_str("Failed to create IngressRoute")))
        }
    }

    /// Creates one SNI-matched TCP route object.
    fn create_ingress_route_tcp(&self, cluster: &mut ClusterState, instance_name: &String, ingress_name: &String, instance_id: &String, port: i32, outcomes: &ClusterOutcomes) -> (r: core::result::Result<(), KubeCTFError>)
        ensures
            r is Ok <==> (spec_contains_key(
                old(cluster)@,
                spec_key(spec_tcp_route(ingress_name@, instance_name@, instance_id@, port as int, self.base_domain@)),
            ) || !spec_failing_keys(outcomes).contains(
                spec_key(spec_tcp_route(ingress_name@, instance_name@, instance_id@, port as int, self.base_domain@)),
            )),
            r is Ok ==> final(cluster)@ == spec_apply_create(
                old(cluster)@,
                spec_tcp_route(ingress_name@, instance_name@, instance_id@, port as int, self.base_domain@),
            ),
            r matches Err(e) ==> final(cluster)@ == old(cluster)@ && e is DeployError,
    {
        let mut match_rule = String::from_str("HostSNI(`");
        match_rule.append(ingress_name.as_str());
        proof {
            reveal_strlit(".");
        }
        match_rule.append(".");
        match_rule.append(self.base_domain.as_str());
        match_rule.append("`)");
        assert(match_rule@ =~= "HostSNI(`"@ + ingress_name@ + seq!['.'] + self.base_domain@ + "`)"@);
        let resource = ClusterResource {
            name: ingress_name.clone(),
            instance_id: instance_id.clone(),
            instance_name: instance_name.clone(),
            body: ResourceBody::IngressRouteTCP {
                port,
                match_rule,
                service_name: instance_name.clone(),
                tls_secret: String::from_str("wildcard-cert"),
            },
        };
        assert(resource@ == spec_tcp_route(
            ingress_name@,
            instance_name@,
            instance_id@,
            port as int,
            self.base_domain@,
        ));
        if cluster.create(resource, outcomes) {
            Ok(())
        } else {
            Err(KubeCTFError::DeployError(String::from_str("Failed to create IngressRouteTCP")))
        }
    }

    /// Creates the route objects for every port of one container, in port
    /// order, stopping at the first failure.
    fn create_ingress(&self, cluster: &mut ClusterState, container: &Container, instance_id: &String, outcomes: &ClusterOutcomes) -> (r: core::result::Result<(), KubeCTFError>)
        ensures
            r is Ok <==> spec_plan_ok(
                old(cluster)@,
                spec_routes_plan(container@, instance_id@, self.base_domain@),
                spec_failing_keys(outcomes),
            ),
            r is Ok ==> final(cluster)@ == spec_apply_plan(
                old(cluster)@,
                spec_routes_plan(container@, instance_id@, self.base_domain@),
            ),
            r matches Err(e) ==> spec_strip(final(cluster)@, instance_id@) == spec_strip(old(cluster)@, instance_id@)
                && e is DeployError,
    {
        let ghost rp = spec_routes_plan(container@, instance_id@, self.base_domain@);
        let ghost failing = spec_failing_keys(outcomes);
        let instance_name = hyph_join(container.name.as_str(), instance_id.as_str());
        let mut pi: usize = 0;
        while pi < container.ports.len()
            invariant
                0 <= pi <= container.ports@.len(),
                rp == spec_routes_plan(container@, instance_id@, self.base_domain@),
                failing == spec_failing_keys(outcomes),
                instance_name@ == spec_instance_name(container@.name, instance_id@),
                cluster@ == spec_apply_plan(old(cluster)@, rp.take(pi as int)),
                spec_plan_ok(old(cluster)@, rp.take(pi as int), failing),
            decreases container.ports@.len() - pi,
        {
            let port = &container.ports[pi];
            let ingress_name = port_route_name(port, container.name.as_str(), instance_id.as_str());
            let ghost route = rp[pi as int];
            let ghost s_pre = cluster@;
            assert(route == spec_route_resource(container@.ports[pi as int], container@, instance_id@, self.base_domain@));
            let step = match port.protocol {
                Protocols::HTTP => self.create_ingress_route(
                    cluster,
                    &instance_name,
                    &ingress_name,
                    instance_id,
                    port.number,
                    outcomes,
                ),
                Protocols::TCP => self.create_ingress_route_tcp(
                    cluster,
                    &instance_name,
                    &ingress_name,
                    instance_id,
                    port.number,
                    outcomes,
                ),
            };
            match step {
                Ok(()) => {
                    proof {
                        lemma_plan_singleton(s_pre, route, failing);
                        lemma_apply_plan_concat(old(cluster)@, rp.take(pi as int), seq![route]);
                        lemma_plan_ok_concat(old(cluster)@, rp.take(pi as int), seq![route], failing);
                        assert(rp.take(pi + 1) =~= rp.take(pi as int) + seq![route]);
                    }
                },
                Err(e) => {
                    proof {
                        lemma_plan_singleton(s_pre, route, failing);
                        assert(!spec_plan_ok(s_pre, seq![route], failing));
                        lemma_plan_ok_concat(old(cluster)@, rp.take(pi as int), rp.skip(pi as int), failing);
                        assert(rp.take(pi as int) + rp.skip(pi as int) =~= rp);
                        assert(rp.skip(pi as int)[0] == route);
                        assert(rp.skip(pi as int).len() > 0);
                        assert(!spec_plan_ok(s_pre, rp.skip(pi as int), failing));
                        assert(!spec_plan_ok(old(cluster)@, rp, failing));
                        assert forall|i: int| 0 <= i < rp.take(pi as int).len() implies (#[trigger] rp.take(
                            pi as int,
                        )[i]).instance_id == instance_id@ by {
                            assert(rp.take(pi as int)[i] == rp[i]);
                            assert(rp[i] == spec_route_resource(
                                container@.ports[i],
                                container@,
                                instance_id@,
                                self.base_domain@,
                            ));
                        }
                        lemma_strip_apply_plan(old(cluster)@, rp.take(pi as int), instance_id@);
                    }
                    return Err(e);
                },
            }
            pi = pi + 1;
        }
        proof {
            assert(rp.take(container.ports@.len() as int) =~= rp);
        }
        Ok(())
    }

    /// The label-selector bulk teardown: removes every object of the five
    /// kinds carrying the instance-id label, and treats deleting nothing
    /// as success.
    fn cleanup(&self, cluster: &mut ClusterState, instance_id: &String) -> (r: core::result::Result<(), KubeCTFError>)
        ensures
            r is Ok,
            final(cluster)@ == spec_strip(old(cluster)@, instance_id@),
    {
        cluster.delete_labeled(instance_id.as_str());
        Ok(())
    }
}

impl Provider for KubernetesProvider {
    open spec fn create_post(
        &self,
        pre: Seq<ClusterResourceV>,
        post: Seq<ClusterResourceV>,
        containers: Seq<ContainerV>,
        instance_id: Seq<char>,
        ok: bool,
        failing: Set<(ResourceKind, Seq<char>)>,
    ) -> bool {
        let plan = spec_instance_plan(containers, instance_id, self.base_domain@);
        &&& ok == spec_plan_ok(pre, plan, failing)
        &&& ok ==> post == spec_apply_plan(pre, plan)
        &&& !ok ==> post == spec_strip(pre, instance_id)
    }

    open spec fn delete_post(
        &self,
        pre: Seq<ClusterResourceV>,
        post: Seq<ClusterResourceV>,
        instance_id: Seq<char>,
        ok: bool,
    ) -> bool {
        &&& ok
        &&& post == spec_strip(pre, instance_id)
    }

    fn create_instnace(
        &self,
        cluster: &mut ClusterState,
        spec: &Vec<Container>,
        instance_id: &String,
        outcomes: &ClusterOutcomes,
    ) -> (r: core::result::Result<(), KubeCTFError>) {
        let ghost cv = containers_view(spec@);
        let ghost plan = spec_instance_plan(cv, instance_id@, self.base_domain@);
        let ghost failing = spec_failing_keys(outcomes);
        let mut ci: usize = 0;
        while ci < spec.len()
            invariant
                0 <= ci <= cv.len(),
                cv == containers_view(spec@),
                plan == spec_instance_plan(cv, instance_id@, self.base_domain@),
                failing == spec_failing_keys(outcomes),
                cluster@ == spec_apply_plan(
                    old(cluster)@,
                    spec_instance_plan(cv.take(ci as int), instance_id@, self.base_domain@),
                ),
                spec_plan_ok(
                    old(cluster)@,
                    spec_instance_plan(cv.take(ci as int), instance_id@, self.base_domain@),
                    failing,
                ),
            decreases cv.len() - ci,
        {
            let container = &spec[ci];
            let ghost c = cv[ci as int];
            let ghost prefix = spec_instance_plan(cv.take(ci as int), instance_id@, self.base_domain@);
            let ghost cplan = spec_container_plan(c, instance_id@, self.base_domain@);
            let ghost dep = spec_deployment_resource(c, instance_id@);
            let ghost svcp = spec_service_plan(c, instance_id@);
            let ghost netp = spec_network_policy_resource(c, instance_id@);
            let ghost routes = spec_routes_plan(c, instance_id@, self.base_domain@);
            let ghost s0 = cluster@;
            proof {
                assert(cplan == ((seq![dep] + svcp) + seq![netp]) + routes);
                assert forall|i: int| 0 <= i < svcp.len() implies (#[trigger] svcp[i]).instance_id == instance_id@ by {
                    assert(svcp[i] == spec_service_resource(c, instance_id@));
                }
            }

            let step_deployment = self.create_deployment(cluster, container, instance_id, outcomes);
            if let Err(e) = step_deployment {
                proof {
                    lemma_plan_singleton(s0, dep, failing);
                    lemma_plan_ok_concat(s0, seq![dep], svcp, failing);
                    lemma_plan_ok_concat(s0, seq![dep] + svcp, seq![netp], failing);
                    lemma_plan_ok_concat(s0, (seq![dep] + svcp) + seq![netp], routes, failing);
                    assert(!spec_plan_ok(s0, cplan, failing));
                    lemma_fail_container(old(cluster)@, cv, ci as int, instance_id@, self.base_domain@, failing);
                    lemma_strip_prefix(old(cluster)@, cv, ci as int, instance_id@, self.base_domain@);
                }
                let _ = self.cleanup(cluster, instance_id);
                return Err(e);
            }
            let ghost s1 = cluster@;
            let step_service = self.create_service(cluster, container, instance_id, outcomes);
            if let Err(e) = step_service {
                proof {
                    lemma_plan_singleton(s0, dep, failing);
                    assert(s1 == spec_apply_plan(s0, seq![dep]));
                    lemma_plan_ok_concat(s0, seq![dep], svcp, failing);
                    lemma_plan_ok_concat(s0, seq![dep] + svcp, seq![netp], failing);
                    lemma_plan_ok_concat(s0, (seq![dep] + svcp) + seq![netp], routes, failing);
                    assert(!spec_plan_ok(s0, cplan, failing));
                    lemma_fail_container(old(cluster)@, cv, ci as int, instance_id@, self.base_domain@, failing);
                    assert(dep.instance_id == instance_id@);
                    lemma_strip_apply_plan(s0, seq![dep], instance_id@);
                    lemma_strip_prefix(old(cluster)@, cv, ci as int, instance_id@, self.base_domain@);
                }
                let _ = self.cleanup(cluster, instance_id);
                return Err(e);
            }
            let ghost s2 = cluster@;
            let step_netpol = self.create_network_policy(cluster, container, instance_id, outcomes);
            if let Err(e) = step_netpol {
                proof {
                    lemma_plan_singleton(s0, dep, failing);
                    lemma_plan_singleton(s2, netp, failing);
                    assert(s1 == spec_apply_plan(s0, seq![dep]));
                    lemma_apply_plan_concat(s0, seq![dep], svcp);
                    assert(s2 == spec_apply_plan(s0, seq![dep] + svcp));
                    lemma_plan_ok_concat(s0, seq![dep], svcp, failing);
                    lemma_plan_ok_concat(s0, seq![dep] + svcp, seq![netp], failing);
                    lemma_plan_ok_concat(s0, (seq![dep] + svcp) + seq![netp], routes, failing);
                    assert(!spec_plan_ok(s0, cplan, failing));
                    lemma_fail_container(old(cluster)@, cv, ci as int, instance_id@, self.base_domain@, failing);
                    assert(dep.instance_id == instance_id@);
                    lemma_strip_apply_plan(s0, seq![dep], instance_id@);
                    lemma_strip_apply_plan(s1, svcp, instance_id@);
                    lemma_strip_prefix(old(cluster)@, cv, ci as int, instance_id@, self.base_domain@);
                }
                let _ = self.cleanup(cluster, instance_id);
                return Err(e);
            }
            let ghost s3 = cluster@;
            let step_ingress = self.create_ingress(cluster, container, instance_id, outcomes);
            if let Err(e) = step_ingress {
                proof {
                    lemma_plan_singleton(s0, dep, failing);
                    lemma_plan_singleton(s2, netp, failing);
                    assert(s1 == spec_apply_plan(s0, seq![dep]));
                    lemma_apply_plan_concat(s0, seq![dep], svcp);
                    assert(s2 == spec_apply_plan(s0, seq![dep] + svcp));
                    lemma_apply_plan_concat(s0, seq![dep] + svcp, seq![netp]);
                    assert(s3 == spec_apply_plan(s0, (seq![dep] + svcp) + seq![netp]));
                    lemma_plan_ok_concat(s0, seq![dep], svcp, failing);
                    lemma_plan_ok_concat(s0, seq![dep] + svcp, seq![netp], failing);
                    lemma_plan_ok_concat(s0, (seq![dep] + svcp) + seq![netp], routes, failing);
                    assert(!spec_plan_ok(s0, cplan, failing));
                    lemma_fail_container(old(cluster)@, cv, ci as int, instance_id@, self.base_domain@, failing);
                    assert(dep.instance_id == instance_id@);
                    assert(netp.instance_id == instance_id@);
                    lemma_strip_apply_plan(s0, seq![dep], instance_id@);
                    lemma_strip_apply_plan(s1, svcp, instance_id@);
                    lemma_strip_apply_plan(s2, seq![netp], instance_id@);
                    lemma_strip_prefix(old(cluster)@, cv, ci as int, instance_id@, self.base_domain@);
                }
                let _ = self.cleanup(cluster, instance_id);
                return Err(e);
            }
            proof {
                lemma_plan_singleton(s0, dep, failing);
                lemma_plan_singleton(s2, netp, failing);
                assert(s1 == spec_apply_plan(s0, seq![dep]));
                lemma_apply_plan_concat(s0, seq![dep], svcp);
                assert(s2 == spec_apply_plan(s0, seq![dep] + svcp));
                lemma_apply_plan_concat(s0, seq![dep] + svcp, seq![netp]);
                assert(s3 == spec_apply_plan(s0, (seq![dep] + svcp) + seq![netp]));
                lemma_apply_plan_concat(s0, (seq![dep] + svcp) + seq![netp], routes);
                assert(cluster@ == spec_apply_plan(s0, cplan));
                lemma_plan_ok_concat(s0, seq![dep], svcp, failing);
                lemma_plan_ok_concat(s0, seq![dep] + svcp, seq![netp], failing);
                lemma_plan_ok_concat(s0, (seq![dep] + svcp) + seq![netp], routes, failing);
                assert(spec_plan_ok(s0, cplan, failing));
                lemma_instance_plan_take_step(cv, instance_id@, self.base_domain@, ci as int);
                lemma_apply_plan_concat(old(cluster)@, prefix, cplan);
                lemma_plan_ok_concat(old(cluster)@, prefix, cplan, failing);
            }
            ci = ci + 1;
        }
        proof {
            assert(cv.take(cv.len() as int) =~= cv);
        }
        Ok(())
    }

    fn delete_instnace(&self, cluster: &mut ClusterState, instance_id: &String) -> (r: core::result::Result<
        (),
        KubeCTFError,
    >) {
        match self.cleanup(cluster, instance_id) {
            Ok(()) => Ok(()),
            Err(e) => Err(KubeCTFError::DeployError(String::from_str("Failed to tear the instance down"))),
        }
    }
}

/// A resource is one of the two route kinds.
pub open spec fn spec_is_route(r: ClusterResourceV) -> bool {
    spec_body_kind(r.body) is IngressRoute || spec_body_kind(r.body) is IngressRouteTCP
}

/// The route objects among a plan's resources, in plan order.
pub open spec fn spec_routes_of(plan: Seq<ClusterResourceV>) -> Seq<ClusterResourceV>
    decreases plan.len(),
{
    if plan.len() == 0 {
        plan
    } else if spec_is_route(plan[0]) {
        seq![plan[0]] + spec_routes_of(plan.drop_first())
    } else {
        spec_routes_of(plan.drop_first())
    }
}

/// All route objects of an instance, containers in order, ports in order
/// within each.
pub open spec fn spec_instance_routes(containers: Seq<ContainerV>, instance_id: Seq<char>, base_domain: Seq<char>) -> Seq<
    ClusterResourceV,
>
    decreases containers.len(),
{
    if containers.len() == 0 {
        Seq::empty()
    } else {
        spec_routes_plan(containers[0], instance_id, base_domain) + spec_instance_routes(
            containers.drop_first(),
            instance_id,
            base_domain,
        )
    }
}

proof fn lemma_routes_of_concat(a: Seq<ClusterResourceV>, b: Seq<ClusterResourceV>)
    ensures
        spec_routes_of(a + b) == spec_routes_of(a) + spec_routes_of(b),
    decreases a.len(),
{
    if a.len() == 0 {
        assert(a + b =~= b);
        assert(spec_routes_of(a) + spec_routes_of(b) =~= spec_routes_of(b));
    } else {
        assert((a + b)[0] == a[0]);
        assert((a + b).drop_first() =~= a.drop_first() + b);
        lemma_routes_of_concat(a.drop_first(), b);
        if spec_is_route(a[0]) {
            assert(spec_routes_of(a + b) =~= spec_routes_of(a) + spec_routes_of(b));
        } else {
            assert(spec_routes_of(a + b) =~= spec_routes_of(a) + spec_routes_of(b));
        }
    }
}

proof fn lemma_routes_of_all_routes(s: Seq<ClusterResourceV>)
    requires
        forall|i: int| 0 <= i < s.len() ==> spec_is_route(#[trigger] s[i]),
    ensures
        spec_routes_of(s) == s,
    decreases s.len(),
{
    if s.len() > 0 {
        lemma_routes_of_all_routes(s.drop_first());
        assert(spec_routes_of(s) =~= s);
    }
}

/// One generated link addresses one route object: the link's host is the
/// route's name under the base domain, and the route matches exactly that
/// host, as a host rule for HTTP and an SNI rule for TCP.
pub open spec fn spec_link_addresses_route(l: LinkV, r: ClusterResourceV, instance_id: Seq<char>, base_domain: Seq<char>) -> bool {
    &&& r.instance_id == instance_id
    &&& l.url == r.name + seq!['.'] + base_domain
    &&& (match r.body {
        ResourceBodyV::IngressRoute { match_rule, .. } => l.protocol is HTTP && match_rule == "Host(`"@ + l.url
            + "`)"@,
        ResourceBodyV::IngressRouteTCP { match_rule, .. } => l.protocol is TCP && match_rule == "HostSNI(`"@ + l.url
            + "`)"@,
        _ => false,
    })
}

proof fn lemma_container_links_address_routes(c: ContainerV, instance_id: Seq<char>, base_domain: Seq<char>)
    ensures
        spec_ports_links(c, instance_id, base_domain).len() == spec_routes_plan(c, instance_id, base_domain).len(),
        forall|j: int|
            0 <= j < spec_ports_links(c, instance_id, base_domain).len() ==> spec_link_addresses_route(
                #[trigger] spec_ports_links(c, instance_id, base_domain)[j],
                spec_routes_plan(c, instance_id, base_domain)[j],
                instance_id,
                base_domain,
            ),
{
    let links = spec_ports_links(c, instance_id, base_domain);
    let routes = spec_routes_plan(c, instance_id, base_domain);
    assert forall|j: int| 0 <= j < links.len() implies spec_link_addresses_route(
        #[trigger] links[j],
        routes[j],
        instance_id,
        base_domain,
    ) by {
        let p = c.ports[j];
        let rname = spec_derived_name(spec_domain_or_port(p), c.name, instance_id);
        assert(links[j].url =~= rname + seq!['.'] + base_domain);
        match p.protocol {
            Protocols::HTTP => {
                assert(routes[j] == spec_http_route(
                    rname,
                    spec_instance_name(c.name, instance_id),
                    instance_id,
                    p.number,
                    base_domain,
                ));
                assert("Host(`"@ + rname + seq!['.'] + base_domain + "`)"@ =~= "Host(`"@ + links[j].url + "`)"@);
            },
            Protocols::TCP => {
                assert(routes[j] == spec_tcp_route(
                    rname,
                    spec_instance_name(c.name, instance_id),
                    instance_id,
                    p.number,
                    base_domain,
                ));
                assert("HostSNI(`"@ + rname + seq!['.'] + base_domain + "`)"@ =~= "HostSNI(`"@ + links[j].url
                    + "`)"@);
            },
        }
    }
}

/// The connection links returned by a deploy address exactly the route
/// objects the provider's plan creates for the same containers, instance
/// id and base domain: the route objects among the plan's resources are
/// the instance's routes, there are as many links as routes, and link and
/// route correspond pairwise, with the same name derivation on both sides.
pub proof fn lemma_links_address_routes(containers: Seq<ContainerV>, instance_id: Seq<char>, base_domain: Seq<char>)
    ensures
        spec_routes_of(spec_instance_plan(containers, instance_id, base_domain)) == spec_instance_routes(
            containers,
            instance_id,
            base_domain,
        ),
        spec_container_links(containers, instance_id, base_domain).len() == spec_instance_routes(
            containers,
            instance_id,
            base_domain,
        ).len(),
        forall|i: int|
            0 <= i < spec_container_links(containers, instance_id, base_domain).len() ==> spec_link_addresses_route(
                #[trigger] spec_container_links(containers, instance_id, base_domain)[i],
                spec_instance_routes(containers, instance_id, base_domain)[i],
                instance_id,
                base_domain,
            ),
    decreases containers.len(),
{
    if containers.len() == 0 {
    } else {
        let c = containers[0];
        let rest = containers.drop_first();
        lemma_links_address_routes(rest, instance_id, base_domain);
        let cplan = spec_container_plan(c, instance_id, base_domain);
        let dep = seq![spec_deployment_resource(c, instance_id)];
        let svcp = spec_service_plan(c, instance_id);
        let netp = seq![spec_network_policy_resource(c, instance_id)];
        let rp = spec_routes_plan(c, instance_id, base_domain);
        lemma_routes_of_concat(dep + svcp + netp, rp);
        lemma_routes_of_concat(dep + svcp, netp);
        lemma_routes_of_concat(dep, svcp);
        assert(spec_routes_of(Seq::<ClusterResourceV>::empty()) =~= Seq::<ClusterResourceV>::empty());
        assert(dep.drop_first() =~= Seq::<ClusterResourceV>::empty());
        assert(dep[0] == spec_deployment_resource(c, instance_id));
        assert(!spec_is_route(dep[0]));
        assert(netp[0] == spec_network_policy_resource(c, instance_id));
        assert(!spec_is_route(netp[0]));
        assert(netp.drop_first() =~= Seq::<ClusterResourceV>::empty());
        assert(spec_routes_of(dep) =~= Seq::<ClusterResourceV>::empty());
        assert(spec_routes_of(svcp) =~= Seq::<ClusterResourceV>::empty()) by {
            if svcp.len() > 0 {
                assert(svcp[0] == spec_service_resource(c, instance_id));
                assert(svcp.drop_first() =~= Seq::<ClusterResourceV>::empty());
            }
        }
        assert(spec_routes_of(netp) =~= Seq::<ClusterResourceV>::empty());
        assert forall|j: int| 0 <= j < rp.len() implies spec_is_route(#[trigger] rp[j]) by {
            assert(rp[j] == spec_route_resource(c.ports[j], c, instance_id, base_domain));
        }
        lemma_routes_of_all_routes(rp);
        lemma_routes_of_concat(cplan, spec_instance_plan(rest, instance_id, base_domain));
        assert(spec_routes_of(cplan) =~= rp);
        assert(spec_routes_of(spec_instance_plan(containers, instance_id, base_domain)) =~= spec_instance_routes(
            containers,
            instance_id,
            base_domain,
        ));
        lemma_container_links_address_routes(c, instance_id, base_domain);
        let links = spec_container_links(containers, instance_id, base_domain);
        let routes = spec_instance_routes(containers, instance_id, base_domain);
        let clinks = spec_ports_links(c, instance_id, base_domain);
        assert forall|i: int| 0 <= i < links.len() implies spec_link_addresses_route(
            #[trigger] links[i],
            routes[i],
            instance_id,
            base_domain,
        ) by {
            if i < clinks.len() {
                assert(links[i] == clinks[i]);
                assert(routes[i] == rp[i]);
            } else {
                assert(links[i] == spec_container_links(rest, instance_id, base_domain)[i - clinks.len()]);
                assert(routes[i] == spec_instance_routes(rest, instance_id, base_domain)[i - rp.len()]);
            }
        }
    }
}

/// Idempotent creation at the provider contract: once a create call for an
/// instance succeeded, a second create call for the same containers and id
/// succeeds under any target behavior at all and leaves the resource set
/// exactly as the first call left it.
pub proof fn lemma_create_instnace_idempotent(
    provider: &KubernetesProvider,
    pre: Seq<ClusterResourceV>,
    post: Seq<ClusterResourceV>,
    containers: Seq<ContainerV>,
    instance_id: Seq<char>,
    failing_first: Set<(ResourceKind, Seq<char>)>,
    failing_second: Set<(ResourceKind, Seq<char>)>,
)
    requires
        provider.create_post(pre, post, containers, instance_id, true, failing_first),
    ensures
        provider.create_post(post, post, containers, instance_id, true, failing_second),
{
    let plan = spec_instance_plan(containers, instance_id, provider.base_domain@);
    crate::cluster::lemma_plan_idempotent(pre, plan, failing_second);
}

/// Safe deletion at the provider contract: a delete call for an id under
/// which nothing is materialized succeeds and changes nothing.
pub proof fn lemma_delete_instnace_noop(
    provider: &KubernetesProvider,
    pre: Seq<ClusterResourceV>,
    post: Seq<ClusterResourceV>,
    instance_id: Seq<char>,
    ok: bool,
)
    requires
        crate::cluster::spec_no_instance(pre, instance_id),
        provider.delete_post(pre, post, instance_id, ok),
    ensures
        ok,
        post == pre,
{
    crate::cluster::lemma_strip_noop(pre, instance_id);
}

} // verus!
