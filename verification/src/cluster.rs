use vstd::prelude::*;
use vstd::string::*;

use crate::forms::{envs_view, Env, EnvV, Resource, Resources, ResourcesV};

verus! {

/// The kinds of correlated cluster objects one instance is made of: a
/// workload, a service, a network policy, and one route object per exposed
/// port (host-matched for HTTP, SNI-matched for TCP).
#[derive(Clone, Copy, Debug, PartialEq, Eq, Structural)]
pub enum ResourceKind {
    Deployment,
    Service,
    NetworkPolicy,
    IngressRoute,
    IngressRouteTCP,
}

/// One egress rule of an instance's network policy.
#[derive(Clone, Copy, Debug, PartialEq, Eq, Structural)]
pub enum EgressRule {
    /// DNS over port 53, TCP and UDP, to the cluster resolver.
    ClusterDns,
    /// Unrestricted egress to the public internet, with the private address
    /// ranges explicitly excluded.
    ExternalNetwork,
    /// Egress to the pods sharing the same instance label.
    SameInstance,
}

/// One ingress rule of an instance's network policy.
#[derive(Clone, Copy, Debug, PartialEq, Eq, Structural)]
pub enum IngressRule {
    /// From the ingress controller's pods.
    IngressController,
    /// From the pods sharing the same instance label.
    SameInstance,
}

/// The kind-specific payload of one cluster resource.
pub enum ResourceBody {
    Deployment { container_name: String, image: String, envs: Vec<Env>, resources: Option<Resources> },
    Service { ports: Vec<i32> },
    NetworkPolicy { egress: Vec<EgressRule>, ingress: Vec<IngressRule> },
    IngressRoute { port: i32, match_rule: String, service_name: String, tls_secret: String },
    IngressRouteTCP { port: i32, match_rule: String, service_name: String, tls_secret: String },
}

pub enum ResourceBodyV {
    Deployment { container_name: Seq<char>, image: Seq<char>, envs: Seq<EnvV>, resources: Option<ResourcesV> },
    Service { ports: Seq<int> },
    NetworkPolicy { egress: Seq<EgressRule>, ingress: Seq<IngressRule> },
    IngressRoute { port: int, match_rule: Seq<char>, service_name: Seq<char>, tls_secret: Seq<char> },
    IngressRouteTCP { port: int, match_rule: Seq<char>, service_name: Seq<char>, tls_secret: Seq<char> },
}

/// The view of a service port list.
pub open spec fn port_numbers_view(ports: Seq<i32>) -> Seq<int> {
    ports.map_values(|p: i32| p as int)
}

impl View for ResourceBody {
    type V = ResourceBodyV;

    open spec fn view(&self) -> ResourceBodyV {
        match self {
            ResourceBody::Deployment { container_name, image, envs, resources } => ResourceBodyV::Deployment {
                container_name: container_name@,
                image: image@,
                envs: envs_view(envs@),
                resources: match resources {
                    Some(r) => Some(r@),
                    None => None,
                },
            },
            ResourceBody::Service { ports } => ResourceBodyV::Service { ports: port_numbers_view(ports@) },
            ResourceBody::NetworkPolicy { egress, ingress } => ResourceBodyV::NetworkPolicy {
                egress: egress@,
                ingress: ingress@,
            },
            ResourceBody::IngressRoute { port, match_rule, service_name, tls_secret } => ResourceBodyV::IngressRoute {
                port: *port as int,
                match_rule: match_rule@,
                service_name: service_name@,
                tls_secret: tls_secret@,
            },
            ResourceBody::IngressRouteTCP {
                port,
                match_rule,
                service_name,
                tls_secret,
            } => ResourceBodyV::IngressRouteTCP {
                port: *port as int,
                match_rule: match_rule@,
                service_name: service_name@,
                tls_secret: tls_secret@,
            },
        }
    }
}

/// The kind a payload belongs to.
pub open spec fn spec_body_kind(b: ResourceBodyV) -> ResourceKind {
    match b {
        ResourceBodyV::Deployment { .. } => ResourceKind::Deployment,
        ResourceBodyV::Service { .. } => ResourceKind::Service,
        ResourceBodyV::NetworkPolicy { .. } => ResourceKind::NetworkPolicy,
        ResourceBodyV::IngressRoute { .. } => ResourceKind::IngressRoute,
        ResourceBodyV::IngressRouteTCP { .. } => ResourceKind::IngressRouteTCP,
    }
}

impl ResourceBody {
    /// The kind of this payload.
    pub fn kind(&self) -> (r: ResourceKind)
        ensures
            r == spec_body_kind(self@),
    {
        match self {
            ResourceBody::Deployment { .. } => ResourceKind::Deployment,
            ResourceBody::Service { .. } => ResourceKind::Service,
            ResourceBody::NetworkPolicy { .. } => ResourceKind::NetworkPolicy,
            ResourceBody::IngressRoute { .. } => ResourceKind::IngressRoute,
            ResourceBody::IngressRouteTCP { .. } => ResourceKind::IngressRouteTCP,
        }
    }
}

/// One materialized cluster object, tagged with the common instance-id
/// label and the per-container instance-name label.
pub struct ClusterResource {
    pub name: String,
    pub instance_id: String,
    pub instance_name: String,
    pub body: ResourceBody,
}

pub struct ClusterResourceV {
    pub name: Seq<char>,
    pub instance_id: Seq<char>,
    pub instance_name: Seq<char>,
    pub body: ResourceBodyV,
}

impl View for ClusterResource {
    type V = ClusterResourceV;

    open spec fn view(&self) -> ClusterResourceV {
        ClusterResourceV {
            name: self.name@,
            instance_id: self.instance_id@,
            instance_name: self.instance_name@,
            body: self.body@,
        }
    }
}

/// The identity of a resource in the orchestration target: object kind plus
/// object name. Creation of an already existing identity is the conflict
/// the target answers idempotently.
pub open spec fn spec_key(r: ClusterResourceV) -> (ResourceKind, Seq<char>) {
    (spec_body_kind(r.body), r.name)
}

/// The views of a resource list.
pub open spec fn resources_view(rs: Seq<ClusterResource>) -> Seq<ClusterResourceV> {
    rs.map_values(|r: ClusterResource| r@)
}

/// The model of the orchestration target: the set of currently materialized
/// objects, in creation order.
pub struct ClusterState {
    pub resources: Vec<ClusterResource>,
}

impl View for ClusterState {
    type V = Seq<ClusterResourceV>;

    open spec fn view(&self) -> Seq<ClusterResourceV> {
        resources_view(self.resources@)
    }
}

/// Some materialized object already has this identity.
pub open spec fn spec_contains_key(s: Seq<ClusterResourceV>, k: (ResourceKind, Seq<char>)) -> bool {
    exists|i: int| 0 <= i < s.len() && spec_key(#[trigger] s[i]) == k
}

/// One idempotent creation: a no-op when the identity already exists,
/// otherwise the object is materialized.
pub open spec fn spec_apply_create(s: Seq<ClusterResourceV>, r: ClusterResourceV) -> Seq<ClusterResourceV> {
    if spec_contains_key(s, spec_key(r)) {
        s
    } else {
        s.push(r)
    }
}

/// A whole plan of idempotent creations, applied in order.
pub open spec fn spec_apply_plan(s: Seq<ClusterResourceV>, plan: Seq<ClusterResourceV>) -> Seq<ClusterResourceV>
    decreases plan.len(),
{
    if plan.len() == 0 {
        s
    } else {
        spec_apply_plan(spec_apply_create(s, plan[0]), plan.drop_first())
    }
}

/// Whether running `plan` from state `s` creates every object: each step
/// either finds its identity already present (a conflict, treated as
/// success) or is an actual creation the target does not fail.
pub open spec fn spec_plan_ok(s: Seq<ClusterResourceV>, plan: Seq<ClusterResourceV>, failing: Set<
    (ResourceKind, Seq<char>),
>) -> bool
    decreases plan.len(),
{
    if plan.len() == 0 {
        true
    } else {
        (spec_contains_key(s, spec_key(plan[0])) || !failing.contains(spec_key(plan[0]))) && spec_plan_ok(
            spec_apply_create(s, plan[0]),
            plan.drop_first(),
            failing,
        )
    }
}

/// The state after a label-selector bulk delete: every object carrying the
/// instance-id label is gone, everything else is untouched.
pub open spec fn spec_strip(s: Seq<ClusterResourceV>, instance_id: Seq<char>) -> Seq<ClusterResourceV>
    decreases s.len(),
{
    if s.len() == 0 {
        s
    } else if s[0].instance_id == instance_id {
        spec_strip(s.drop_first(), instance_id)
    } else {
        seq![s[0]] + spec_strip(s.drop_first(), instance_id)
    }
}

/// No materialized object carries the instance-id label.
pub open spec fn spec_no_instance(s: Seq<ClusterResourceV>, instance_id: Seq<char>) -> bool {
    forall|i: int| 0 <= i < s.len() ==> (#[trigger] s[i]).instance_id != instance_id
}

/// The injected behavior of the orchestration target for one call: the
/// identities whose actual creation the target would fail.
pub struct ClusterOutcomes {
    pub failing: Vec<(ResourceKind, String)>,
}

/// The set of identities whose creation fails.
pub open spec fn spec_failing_keys(o: &ClusterOutcomes) -> Set<(ResourceKind, Seq<char>)> {
    Set::new(
        |k: (ResourceKind, Seq<char>)|
            exists|i: int|
                0 <= i < o.failing@.len() && ((#[trigger] o.failing@[i]).0, o.failing@[i].1@) == k,
    )
}

impl ClusterOutcomes {
    /// A behavior under which the target fails nothing.
    pub fn none() -> (r: ClusterOutcomes)
        ensures
            spec_failing_keys(&r) =~= Set::<(ResourceKind, Seq<char>)>::empty(),
    {
        ClusterOutcomes { failing: Vec::new() }
    }

    /// Whether the creation of this identity is one the target fails.
    pub fn fails(&self, kind: ResourceKind, name: &String) -> (r: bool)
        ensures
            r == spec_failing_keys(self).contains((kind, name@)),
    {
        let mut i: usize = 0;
        while i < self.failing.len()
            invariant
                0 <= i <= self.failing@.len(),
                forall|j: int| 0 <= j < i ==> ((#[trigger] self.failing@[j]).0, self.failing@[j].1@) != (kind, name@),
            decreases self.failing@.len() - i,
        {
            let (k, n) = &self.failing[i];
            if *k == kind && n.eq(name) {
                assert(((self.failing@[i as int]).0, self.failing@[i as int].1@) == (kind, name@));
                return true;
            }
            i = i + 1;
        }
        false
    }
}

impl ClusterState {
    /// A target with nothing materialized.
    pub fn new() -> (r: ClusterState)
        ensures
            r@ =~= Seq::<ClusterResourceV>::empty(),
    {
        ClusterState { resources: Vec::new() }
    }

    /// Some materialized object already has this kind and name.
    pub fn contains_key(&self, kind: ResourceKind, name: &String) -> (r: bool)
        ensures
            r == spec_contains_key(self@, (kind, name@)),
    {
        let mut i: usize = 0;
        while i < self.resources.len()
            invariant
                0 <= i <= self.resources@.len(),
                forall|j: int| 0 <= j < i ==> spec_key(#[trigger] self@[j]) != (kind, name@),
            decreases self.resources@.len() - i,
        {
            let rk = self.resources[i].body.kind();
            if rk == kind && self.resources[i].name.eq(name) {
                assert(spec_key(self@[i as int]) == (kind, name@));
                return true;
            }
            i = i + 1;
        }
        false
    }

    /// One idempotent creation against the target: an existing identity is
    /// a conflict answered as success; otherwise the target either fails
    /// the creation as `outcomes` says, or materializes the object.
    pub fn create(&mut self, r: ClusterResource, outcomes: &ClusterOutcomes) -> (ok: bool)
        ensures
            ok == (spec_contains_key(old(self)@, spec_key(r@)) || !spec_failing_keys(outcomes).contains(
                spec_key(r@),
            )),
            ok ==> final(self)@ == spec_apply_create(old(self)@, r@),
            !ok ==> final(self)@ == old(self)@,
    {
        let kind = r.body.kind();
        if self.contains_key(kind, &r.name) {
            return true;
        }
        if outcomes.fails(kind, &r.name) {
            return false;
        }
        let ghost prev = self.resources@;
        self.resources.push(r);
        proof {
            assert(resources_view(self.resources@) =~= resources_view(prev).push(self.resources@[prev.len() as int]@));
        }
        true
    }

    /// The label-selector bulk delete: removes every object carrying the
    /// instance-id label. Deleting nothing is success, so this is total.
    pub fn delete_labeled(&mut self, instance_id: &str)
        ensures
            final(self)@ == spec_strip(old(self)@, instance_id@),
    {
        let mut kept: Vec<ClusterResource> = Vec::new();
        let mut i: usize = 0;
        while i < self.resources.len()
            invariant
                0 <= i <= self.resources@.len(),
                self.resources@ == old(self).resources@,
                resources_view(kept@) == spec_strip(self@.take(i as int), instance_id@),
            decreases self.resources@.len() - i,
        {
            proof {
                lemma_strip_take_step(self@, instance_id@, i as int);
            }
            let keep = !self.resources[i].instance_id.as_str().eq(instance_id);
            if keep {
                let ghost prevk = kept@;
                let r = clone_resource(&self.resources[i]);
                kept.push(r);
                proof {
                    assert(resources_view(kept@) =~= resources_view(prevk).push(self@[i as int]));
                }
            } else {
                proof {
                    assert(resources_view(kept@) =~= spec_strip(self@.take(i + 1), instance_id@));
                }
            }
            i = i + 1;
        }
        proof {
            assert(self@.take(self.resources@.len() as int) =~= self@);
        }
        self.resources = kept;
    }
}

fn clone_env(e: &Env) -> (r: Env)
    ensures
        r@ == e@,
{
    Env { name: e.name.clone(), value: e.value.clone() }
}

/// Copies an environment list, preserving its view.
pub fn clone_envs(v: &Vec<Env>) -> (r: Vec<Env>)
    ensures
        envs_view(r@) == envs_view(v@),
{
    let mut out: Vec<Env> = Vec::new();
    let mut i: usize = 0;
    while i < v.len()
        invariant
            0 <= i <= v@.len(),
            envs_view(out@) == envs_view(v@).take(i as int),
        decreases v@.len() - i,
    {
        let ghost prev = out@;
        out.push(clone_env(&v[i]));
        proof {
            assert(envs_view(out@) =~= envs_view(v@).take(i + 1));
        }
        i = i + 1;
    }
    proof {
        assert(envs_view(v@).take(v@.len() as int) =~= envs_view(v@));
    }
    out
}

fn clone_resource_block(r: &Resource) -> (out: Resource)
    ensures
        out@ == r@,
{
    Resource { cpu: r.cpu.clone(), memory: r.memory.clone() }
}

/// Copies an optional resource-request block, preserving its view.
pub fn clone_resources(v: &Option<Resources>) -> (r: Option<Resources>)
    ensures
        (match r {
            Some(x) => Some(x@),
            None => None,
        }) == (match v {
            Some(x) => Some(x@),
            None => None,
        }),
{
    match v {
        Some(x) => Some(
            Resources {
                requests: match &x.requests {
                    Some(q) => Some(clone_resource_block(q)),
                    None => None,
                },
                limits: match &x.limits {
                    Some(q) => Some(clone_resource_block(q)),
                    None => None,
                },
            },
        ),
        None => None,
    }
}

fn clone_body(b: &ResourceBody) -> (r: ResourceBody)
    ensures
        r@ == b@,
{
    match b {
        ResourceBody::Deployment { container_name, image, envs, resources } => ResourceBody::Deployment {
            container_name: container_name.clone(),
            image: image.clone(),
            envs: clone_envs(envs),
            resources: clone_resources(resources),
        },
        ResourceBody::Service { ports } => {
            let mut out: Vec<i32> = Vec::new();
            let mut i: usize = 0;
            while i < ports.len()
                invariant
                    0 <= i <= ports@.len(),
                    port_numbers_view(out@) == port_numbers_view(ports@).take(i as int),
                decreases ports@.len() - i,
            {
                out.push(ports[i]);
                proof {
                    assert(port_numbers_view(out@) =~= port_numbers_view(ports@).take(i + 1));
                }
                i = i + 1;
            }
            proof {
                assert(port_numbers_view(ports@).take(ports@.len() as int) =~= port_numbers_view(ports@));
            }
            ResourceBody::Service { ports: out }
        },
        ResourceBody::NetworkPolicy { egress, ingress } => {
            let mut eg: Vec<EgressRule> = Vec::new();
            let mut i: usize = 0;
            while i < egress.len()
                invariant
                    0 <= i <= egress@.len(),
                    eg@ == egress@.take(i as int),
                decreases egress@.len() - i,
            {
                eg.push(egress[i]);
                proof {
                    assert(eg@ =~= egress@.take(i + 1));
                }
                i = i + 1;
            }
            let mut ig: Vec<IngressRule> = Vec::new();
            let mut j: usize = 0;
            while j < ingress.len()
                invariant
                    0 <= j <= ingress@.len(),
                    ig@ == ingress@.take(j as int),
                decreases ingress@.len() - j,
            {
                ig.push(ingress[j]);
                proof {
                    assert(ig@ =~= ingress@.take(j + 1));
                }
                j = j + 1;
            }
            proof {
                assert(egress@.take(egress@.len() as int) =~= egress@);
                assert(ingress@.take(ingress@.len() as int) =~= ingress@);
            }
            ResourceBody::NetworkPolicy { egress: eg, ingress: ig }
        },
        ResourceBody::IngressRoute { port, match_rule, service_name, tls_secret } => ResourceBody::IngressRoute {
            port: *port,
            match_rule: match_rule.clone(),
            service_name: service_name.clone(),
            tls_secret: tls_secret.clone(),
        },
        ResourceBody::IngressRouteTCP { port, match_rule, service_name, tls_secret } => ResourceBody::IngressRouteTCP {
            port: *port,
            match_rule: match_rule.clone(),
            service_name: service_name.clone(),
            tls_secret: tls_secret.clone(),
        },
    }
}

/// Copies one materialized resource, preserving its view.
pub fn clone_resource(r: &ClusterResource) -> (out: ClusterResource)
    ensures
        out@ == r@,
{
    ClusterResource {
        name: r.name.clone(),
        instance_id: r.instance_id.clone(),
        instance_name: r.instance_name.clone(),
        body: clone_body(&r.body),
    }
}

/// Removing the labeled objects of a prefix, one element further.
pub proof fn lemma_strip_take_step(s: Seq<ClusterResourceV>, instance_id: Seq<char>, i: int)
    requires
        0 <= i < s.len(),
    ensures
        spec_strip(s.take(i + 1), instance_id) == if s[i].instance_id == instance_id {
            spec_strip(s.take(i), instance_id)
        } else {
            spec_strip(s.take(i), instance_id) + seq![s[i]]
        },
    decreases i,
{
    let pre = s.take(i + 1);
    if i == 0 {
        assert(pre.drop_first() =~= s.take(0));
        if s[0].instance_id == instance_id {
            assert(spec_strip(pre, instance_id) =~= spec_strip(s.take(0), instance_id));
        } else {
            assert(spec_strip(pre, instance_id) =~= spec_strip(s.take(0), instance_id) + seq![s[0]]);
        }
    } else {
        lemma_strip_take_step(s.drop_first(), instance_id, i - 1);
        assert(pre.drop_first() =~= s.drop_first().take(i));
        assert(s.take(i).drop_first() =~= s.drop_first().take(i - 1));
        assert(s.drop_first()[i - 1] == s[i]);
        if s[i].instance_id == instance_id {
            assert(spec_strip(pre, instance_id) =~= spec_strip(s.take(i), instance_id));
        } else {
            assert(spec_strip(pre, instance_id) =~= spec_strip(s.take(i), instance_id) + seq![s[i]]);
        }
    }
}

/// Stripping a label under which nothing is materialized changes nothing:
/// the bulk delete is a safe no-op on an id without resources.
pub proof fn lemma_strip_noop(s: Seq<ClusterResourceV>, instance_id: Seq<char>)
    requires
        spec_no_instance(s, instance_id),
    ensures
        spec_strip(s, instance_id) == s,
    decreases s.len(),
{
    if s.len() > 0 {
        lemma_strip_noop(s.drop_first(), instance_id);
        assert(seq![s[0]] + s.drop_first() =~= s);
    }
}

/// After a strip, nothing labeled with the instance id remains.
pub proof fn lemma_strip_strips(s: Seq<ClusterResourceV>, instance_id: Seq<char>)
    ensures
        spec_no_instance(spec_strip(s, instance_id), instance_id),
    decreases s.len(),
{
    if s.len() > 0 {
        lemma_strip_strips(s.drop_first(), instance_id);
    }
}

/// Objects not labeled with the instance id survive a strip.
pub proof fn lemma_strip_keeps_others(s: Seq<ClusterResourceV>, instance_id: Seq<char>, r: ClusterResourceV)
    requires
        s.contains(r),
        r.instance_id != instance_id,
    ensures
        spec_strip(s, instance_id).contains(r),
    decreases s.len(),
{
    if s.len() > 0 {
        if s[0] == r {
            if s[0].instance_id == instance_id {
            } else {
                assert(spec_strip(s, instance_id)[0] == r);
            }
        } else {
            assert(s.drop_first().contains(r)) by {
                let i = choose|i: int| 0 <= i < s.len() && s[i] == r;
                assert(s.drop_first()[i - 1] == r);
            }
            lemma_strip_keeps_others(s.drop_first(), instance_id, r);
            if s[0].instance_id == instance_id {
            } else {
                let st = spec_strip(s.drop_first(), instance_id);
                let j = choose|j: int| 0 <= j < st.len() && st[j] == r;
                assert((seq![s[0]] + st)[j + 1] == r);
            }
        }
    }
}

/// Stripping after a push of a labeled object is the same strip.
pub proof fn lemma_strip_push(s: Seq<ClusterResourceV>, instance_id: Seq<char>, r: ClusterResourceV)
    ensures
        spec_strip(s.push(r), instance_id) == if r.instance_id == instance_id {
            spec_strip(s, instance_id)
        } else {
            spec_strip(s, instance_id) + seq![r]
        },
    decreases s.len(),
{
    if s.len() == 0 {
        if r.instance_id == instance_id {
            assert(s.push(r).drop_first() =~= s);
            assert(spec_strip(s.push(r), instance_id) =~= spec_strip(s, instance_id));
        } else {
            assert(s.push(r).drop_first() =~= s);
            assert(spec_strip(s.push(r), instance_id) =~= spec_strip(s, instance_id) + seq![r]);
        }
    } else {
        lemma_strip_push(s.drop_first(), instance_id, r);
        assert(s.push(r).drop_first() =~= s.drop_first().push(r));
        if r.instance_id == instance_id {
            assert(spec_strip(s.push(r), instance_id) =~= spec_strip(s, instance_id));
        } else {
            assert(spec_strip(s.push(r), instance_id) =~= spec_strip(s, instance_id) + seq![r]);
        }
    }
}

/// A plan whose objects all carry the instance-id label adds nothing that a
/// strip of that label keeps: compensation erases whatever a partial or
/// complete run materialized.
pub proof fn lemma_strip_apply_plan(s: Seq<ClusterResourceV>, plan: Seq<ClusterResourceV>, instance_id: Seq<char>)
    requires
        forall|i: int| 0 <= i < plan.len() ==> (#[trigger] plan[i]).instance_id == instance_id,
    ensures
        spec_strip(spec_apply_plan(s, plan), instance_id) == spec_strip(s, instance_id),
    decreases plan.len(),
{
    if plan.len() > 0 {
        let s1 = spec_apply_create(s, plan[0]);
        if spec_contains_key(s, spec_key(plan[0])) {
        } else {
            lemma_strip_push(s, instance_id, plan[0]);
        }
        assert(forall|i: int|
            0 <= i < plan.drop_first().len() ==> (#[trigger] plan.drop_first()[i]).instance_id == instance_id);
        lemma_strip_apply_plan(s1, plan.drop_first(), instance_id);
    }
}

/// A creation never removes an existing identity.
pub proof fn lemma_apply_create_keeps_keys(s: Seq<ClusterResourceV>, r: ClusterResourceV, k: (ResourceKind, Seq<char>))
    requires
        spec_contains_key(s, k),
    ensures
        spec_contains_key(spec_apply_create(s, r), k),
{
    if !spec_contains_key(s, spec_key(r)) {
        let i = choose|i: int| 0 <= i < s.len() && spec_key(s[i]) == k;
        assert(spec_key(s.push(r)[i]) == k);
    }
}

/// A plan never removes an existing identity.
pub proof fn lemma_apply_plan_keeps_keys(s: Seq<ClusterResourceV>, plan: Seq<ClusterResourceV>, k: (ResourceKind, Seq<char>))
    requires
        spec_contains_key(s, k),
    ensures
        spec_contains_key(spec_apply_plan(s, plan), k),
    decreases plan.len(),
{
    if plan.len() > 0 {
        lemma_apply_create_keeps_keys(s, plan[0], k);
        lemma_apply_plan_keeps_keys(spec_apply_create(s, plan[0]), plan.drop_first(), k);
    }
}

/// After a plan ran, every identity it names exists.
pub proof fn lemma_apply_plan_creates_keys(s: Seq<ClusterResourceV>, plan: Seq<ClusterResourceV>, i: int)
    requires
        0 <= i < plan.len(),
    ensures
        spec_contains_key(spec_apply_plan(s, plan), spec_key(plan[i])),
    decreases plan.len(),
{
    if i == 0 {
        let s1 = spec_apply_create(s, plan[0]);
        assert(spec_contains_key(s1, spec_key(plan[0]))) by {
            if !spec_contains_key(s, spec_key(plan[0])) {
                assert(spec_key(s.push(plan[0])[s.len() as int]) == spec_key(plan[0]));
            }
        }
        lemma_apply_plan_keeps_keys(s1, plan.drop_first(), spec_key(plan[0]));
    } else {
        lemma_apply_plan_creates_keys(spec_apply_create(s, plan[0]), plan.drop_first(), i - 1);
        assert(plan.drop_first()[i - 1] == plan[i]);
    }
}

/// Running a plan against a state that already holds every identity the
/// plan names changes nothing and fails nothing: repeated creation of the
/// same instance is answered entirely with conflicts, which are success.
pub proof fn lemma_apply_plan_noop(s: Seq<ClusterResourceV>, plan: Seq<ClusterResourceV>, failing: Set<
    (ResourceKind, Seq<char>),
>)
    requires
        forall|i: int| 0 <= i < plan.len() ==> spec_contains_key(s, spec_key(#[trigger] plan[i])),
    ensures
        spec_apply_plan(s, plan) == s,
        spec_plan_ok(s, plan, failing),
    decreases plan.len(),
{
    if plan.len() > 0 {
        assert(spec_apply_create(s, plan[0]) == s);
        assert(forall|i: int|
            0 <= i < plan.drop_first().len() ==> spec_contains_key(s, spec_key(#[trigger] plan.drop_first()[i])));
        lemma_apply_plan_noop(s, plan.drop_first(), failing);
    }
}

/// Creation is idempotent at the level of a whole instance plan: running a
/// plan a second time, under any target behavior at all, succeeds and
/// leaves the exact resource set of the first run.
pub proof fn lemma_plan_idempotent(s: Seq<ClusterResourceV>, plan: Seq<ClusterResourceV>, failing: Set<
    (ResourceKind, Seq<char>),
>)
    ensures
        spec_apply_plan(spec_apply_plan(s, plan), plan) == spec_apply_plan(s, plan),
        spec_plan_ok(spec_apply_plan(s, plan), plan, failing),
{
    let s1 = spec_apply_plan(s, plan);
    assert forall|i: int| 0 <= i < plan.len() implies spec_contains_key(s1, spec_key(#[trigger] plan[i])) by {
        lemma_apply_plan_creates_keys(s, plan, i);
    }
    lemma_apply_plan_noop(s1, plan, failing);
}

/// A one-object plan is one idempotent creation.
pub proof fn lemma_plan_singleton(s: Seq<ClusterResourceV>, r: ClusterResourceV, failing: Set<(ResourceKind, Seq<char>)>)
    ensures
        spec_plan_ok(s, seq![r], failing) == (spec_contains_key(s, spec_key(r)) || !failing.contains(spec_key(r))),
        spec_apply_plan(s, seq![r]) == spec_apply_create(s, r),
{
    let p = seq![r];
    assert(p.len() == 1);
    assert(p[0] == r);
    assert(p.drop_first() =~= Seq::<ClusterResourceV>::empty());
    assert(spec_plan_ok(spec_apply_create(s, r), p.drop_first(), failing));
    assert(spec_apply_plan(spec_apply_create(s, r), p.drop_first()) == spec_apply_create(s, r));
    assert(spec_plan_ok(s, p, failing) == ((spec_contains_key(s, spec_key(p[0])) || !failing.contains(spec_key(p[0])))
        && spec_plan_ok(spec_apply_create(s, p[0]), p.drop_first(), failing)));
    assert(spec_apply_plan(s, p) == spec_apply_plan(spec_apply_create(s, p[0]), p.drop_first()));
}

/// Splitting a plan: running a concatenation is running both halves.
pub proof fn lemma_apply_plan_concat(s: Seq<ClusterResourceV>, a: Seq<ClusterResourceV>, b: Seq<ClusterResourceV>)
    ensures
        spec_apply_plan(s, a + b) == spec_apply_plan(spec_apply_plan(s, a), b),
    decreases a.len(),
{
    if a.len() == 0 {
        assert(a + b =~= b);
    } else {
        assert((a + b)[0] == a[0]);
        assert((a + b).drop_first() =~= a.drop_first() + b);
        lemma_apply_plan_concat(spec_apply_create(s, a[0]), a.drop_first(), b);
    }
}

/// Splitting success: a concatenation succeeds exactly when the first half
/// succeeds and the second half succeeds from the state the first half
/// left.
pub proof fn lemma_plan_ok_concat(s: Seq<ClusterResourceV>, a: Seq<ClusterResourceV>, b: Seq<ClusterResourceV>, failing: Set<
    (ResourceKind, Seq<char>),
>)
    ensures
        spec_plan_ok(s, a + b, failing) == (spec_plan_ok(s, a, failing) && spec_plan_ok(
            spec_apply_plan(s, a),
            b,
            failing,
        )),
    decreases a.len(),
{
    if a.len() == 0 {
        assert(a + b =~= b);
    } else {
        assert((a + b)[0] == a[0]);
        assert((a + b).drop_first() =~= a.drop_first() + b);
        lemma_plan_ok_concat(spec_apply_create(s, a[0]), a.drop_first(), b, failing);
    }
}

} // verus!
