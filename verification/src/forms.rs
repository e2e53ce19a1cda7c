use vstd::prelude::*;
use vstd::string::*;

use crate::errors::KubeCTFError;
use crate::utils;

verus! {

/// One environment variable handed to a container.
#[derive(Clone, Debug, PartialEq, Eq)]
pub struct Env {
    pub name: String,
    pub value: String,
}

pub struct EnvV {
    pub name: Seq<char>,
    pub value: Seq<char>,
}

impl View for Env {
    type V = EnvV;

    open spec fn view(&self) -> EnvV {
        EnvV { name: self.name@, value: self.value@ }
    }
}

/// The protocol a port is exposed over: plain HTTP host routing, or
/// SNI-matched raw TCP.
#[derive(Clone, Copy, Debug, PartialEq, Eq, Structural)]
pub enum Protocols {
    HTTP,
    TCP,
}

/// One exposed port of a container, with an optional subdomain override.
#[derive(Clone, Debug, PartialEq, Eq)]
pub struct Port {
    pub number: i32,
    pub protocol: Protocols,
    pub domain: Option<String>,
}

pub struct PortV {
    pub number: int,
    pub protocol: Protocols,
    pub domain: Option<Seq<char>>,
}

impl View for Port {
    type V = PortV;

    open spec fn view(&self) -> PortV {
        PortV {
            number: self.number as int,
            protocol: self.protocol,
            domain: match self.domain {
                Some(d) => Some(d@),
                None => None,
            },
        }
    }
}

/// A cpu/memory quantity pair, as requested from the orchestration target.
#[derive(Clone, Debug, PartialEq, Eq)]
pub struct Resource {
    pub cpu: String,
    pub memory: String,
}

pub struct ResourceV {
    pub cpu: Seq<char>,
    pub memory: Seq<char>,
}

impl View for Resource {
    type V = ResourceV;

    open spec fn view(&self) -> ResourceV {
        ResourceV { cpu: self.cpu@, memory: self.memory@ }
    }
}

/// Resource requests and limits for one container.
#[derive(Clone, Debug, PartialEq, Eq)]
pub struct Resources {
    pub requests: Option<Resource>,
    pub limits: Option<Resource>,
}

pub struct ResourcesV {
    pub requests: Option<ResourceV>,
    pub limits: Option<ResourceV>,
}

impl View for Resources {
    type V = ResourcesV;

    open spec fn view(&self) -> ResourcesV {
        ResourcesV {
            requests: match self.requests {
                Some(r) => Some(r@),
                None => None,
            },
            limits: match self.limits {
                Some(r) => Some(r@),
                None => None,
            },
        }
    }
}

/// The views of an environment-variable list.
pub open spec fn envs_view(envs: Seq<Env>) -> Seq<EnvV> {
    envs.map_values(|e: Env| e@)
}

/// The views of a port list.
pub open spec fn ports_view(ports: Seq<Port>) -> Seq<PortV> {
    ports.map_values(|p: Port| p@)
}

/// The specification of one container to run: image, name, ports,
/// environment, network-egress flag and resource requests.
#[derive(Clone, Debug, PartialEq, Eq)]
pub struct Container {
    pub image: String,
    pub name: String,
    pub allow_external_network: bool,
    pub envs: Vec<Env>,
    pub ports: Vec<Port>,
    pub resources: Option<Resources>,
}

pub struct ContainerV {
    pub image: Seq<char>,
    pub name: Seq<char>,
    pub allow_external_network: bool,
    pub envs: Seq<EnvV>,
    pub ports: Seq<PortV>,
    pub resources: Option<ResourcesV>,
}

impl View for Container {
    type V = ContainerV;

    open spec fn view(&self) -> ContainerV {
        ContainerV {
            image: self.image@,
            name: self.name@,
            allow_external_network: self.allow_external_network,
            envs: envs_view(self.envs@),
            ports: ports_view(self.ports@),
            resources: match self.resources {
                Some(r) => Some(r@),
                None => None,
            },
        }
    }
}

/// The deploy request body: the containers to run.
pub struct ChallengeRequest(pub Vec<Container>);

/// The flag submission request body.
pub struct FlagSubmitRequest {
    pub instance_id: String,
    pub flag: String,
}

/// The registration request body.
pub struct UserRegisterForm {
    pub username: String,
    pub email: String,
    pub password: String,
}

/// The login request body.
pub struct UserLoginForm {
    pub email: String,
    pub password: String,
}

/// The view of a container list, used throughout the naming, provisioning
/// and lifecycle contracts.
pub open spec fn containers_view(containers: Seq<Container>) -> Seq<ContainerV> {
    containers.map_values(|c: Container| c@)
}

/// The joined subdomain for one port of one container is within the length
/// limit.
pub open spec fn spec_domain_within(c: ContainerV, p: PortV, instance_id: Seq<char>, max_length: int) -> bool {
    utils::spec_derived_name(utils::spec_domain_or_port(p), c.name, instance_id).len() <= max_length
}

/// Every joined subdomain a deploy of `containers` would produce stays
/// within `max_length`.
pub open spec fn spec_domains_within(containers: Seq<ContainerV>, instance_id: Seq<char>, max_length: int) -> bool {
    forall|i: int, j: int|
        0 <= i < containers.len() && 0 <= j < containers[i].ports.len()
            ==> #[trigger] spec_domain_within(containers[i], containers[i].ports[j], instance_id, max_length)
}

/// Rejects a deploy specification whose joined subdomain for some port would
/// exceed the configured maximum length. The naming rule is the same one the
/// provisioning provider and the link generator use, so passing this check
/// means every route name and generated link fits.
pub fn validate_domain(containers: &Vec<Container>, instance_id: &str, max_length: usize) -> (r: core::result::Result<
    (),
    KubeCTFError,
>)
    ensures
        r is Ok <==> spec_domains_within(containers_view(containers@), instance_id@, max_length as int),
        r matches Err(e) ==> e is ShitHappened && e.spec_message() == "Subdomain is too long"@,
{
    let mut ci: usize = 0;
    while ci < containers.len()
        invariant
            0 <= ci <= containers@.len(),
            forall|i: int, j: int|
                0 <= i < ci && 0 <= j < containers_view(containers@)[i].ports.len()
                    ==> #[trigger] spec_domain_within(
                        containers_view(containers@)[i],
                        containers_view(containers@)[i].ports[j],
                        instance_id@,
                        max_length as int,
                    ),
        decreases containers@.len() - ci,
    {
        let container = &containers[ci];
        let mut pi: usize = 0;
        while pi < container.ports.len()
            invariant
                0 <= pi <= container.ports@.len(),
                container@ == containers_view(containers@)[ci as int],
                0 <= ci < containers@.len(),
                forall|j: int|
                    0 <= j < pi ==> #[trigger] spec_domain_within(
                        containers_view(containers@)[ci as int],
                        containers_view(containers@)[ci as int].ports[j],
                        instance_id@,
                        max_length as int,
                    ),
            decreases container.ports@.len() - pi,
        {
            let port = &container.ports[pi];
            let joined = utils::port_route_name(port, container.name.as_str(), instance_id);
            assert(joined@ == utils::spec_derived_name(
                utils::spec_domain_or_port(container@.ports[pi as int]),
                container@.name,
                instance_id@,
            ));
            if joined.as_str().unicode_len() > max_length {
                assert(!spec_domain_within(
                    containers_view(containers@)[ci as int],
                    containers_view(containers@)[ci as int].ports[pi as int],
                    instance_id@,
                    max_length as int,
                ));
                return Err(KubeCTFError::ShitHappened(String::from_str("Subdomain is too long")));
            }
            pi = pi + 1;
        }
        ci = ci + 1;
    }
    Ok(())
}

/// A character allowed in names and domain overrides: a lowercase ASCII
/// letter or an ASCII digit.
pub open spec fn spec_is_name_char(c: char) -> bool {
    ('a' <= c && c <= 'z') || ('0' <= c && c <= '9')
}

/// Every character of `s` is a lowercase letter or digit.
pub open spec fn spec_all_name_chars(s: Seq<char>) -> bool {
    forall|i: int| 0 <= i < s.len() ==> spec_is_name_char(#[trigger] s[i])
}

fn is_name_char(c: char) -> (r: bool)
    ensures
        r == spec_is_name_char(c),
{
    ('a' <= c && c <= 'z') || ('0' <= c && c <= '9')
}

/// Accepts a string made only of lowercase letters and digits.
pub fn validate_lowercase(string: &str) -> (r: bool)
    ensures
        r == spec_all_name_chars(string@),
{
    let len = string.unicode_len();
    let mut i: usize = 0;
    while i < len
        invariant
            0 <= i <= string@.len(),
            len == string@.len(),
            forall|j: int| 0 <= j < i ==> spec_is_name_char(#[trigger] string@[j]),
        decreases string@.len() - i,
    {
        let c = string.get_char(i);
        if !is_name_char(c) {
            return false;
        }
        i = i + 1;
    }
    true
}

/// A valid container name: empty, or one whose first character is not an
/// ASCII digit and whose later characters are lowercase letters or digits.
pub open spec fn spec_valid_container_name(s: Seq<char>) -> bool {
    s.len() == 0 || (!('0' <= s[0] && s[0] <= '9') && spec_all_name_chars(s.skip(1)))
}

/// Accepts an empty name, or a name whose first character is not a digit
/// and whose remaining characters are lowercase alphanumeric.
pub fn validate_container_name(container_name: &str) -> (r: bool)
    ensures
        r == spec_valid_container_name(container_name@),
{
    let len = container_name.unicode_len();
    if len == 0 {
        return true;
    }
    let first = container_name.get_char(0);
    if '0' <= first && first <= '9' {
        return false;
    }
    let rest = container_name.substring_char(1, len);
    assert(rest@ =~= container_name@.skip(1));
    validate_lowercase(rest)
}

/// The declared domain override of a port, when one is present and
/// non-empty. An absent or empty override takes the port-number fallback
/// in the naming rule, so it collides with nothing.
pub open spec fn spec_port_override(p: PortV) -> Option<Seq<char>> {
    match p.domain {
        Some(d) => if d.len() > 0 {
            Some(d)
        } else {
            None
        },
        None => None,
    }
}

/// No two ports of the list declare the same domain override; ports
/// without a declared override never collide.
pub open spec fn spec_distinct_port_domains(ports: Seq<PortV>) -> bool {
    forall|i: int, j: int|
        0 <= i < j < ports.len() ==> ((#[trigger] spec_port_override(ports[i])) is None || spec_port_override(
            ports[i],
        ) != (#[trigger] spec_port_override(ports[j])))
}

fn overrides_collide(a: &Port, b: &Port) -> (r: bool)
    ensures
        r == (spec_port_override(a@) is Some && spec_port_override(a@) == spec_port_override(b@)),
{
    match (&a.domain, &b.domain) {
        (Some(x), Some(y)) => x.as_str().unicode_len() > 0 && y.as_str().unicode_len() > 0 && x.eq(y),
        _ => false,
    }
}

/// Accepts a port list whose declared domain overrides are pairwise
/// distinct.
pub fn validate_ports(ports: &Vec<Port>) -> (r: bool)
    ensures
        r == spec_distinct_port_domains(ports_view(ports@)),
{
    let ghost pv = ports_view(ports@);
    let mut i: usize = 0;
    while i < ports.len()
        invariant
            0 <= i <= ports@.len(),
            pv == ports_view(ports@),
            forall|x: int, y: int|
                0 <= x < y < i ==> ((#[trigger] spec_port_override(pv[x])) is None || spec_port_override(pv[x]) != (
                #[trigger] spec_port_override(pv[y]))),
        decreases ports@.len() - i,
    {
        let mut j: usize = 0;
        while j < i
            invariant
                0 <= j <= i < ports@.len(),
                pv == ports_view(ports@),
                forall|y: int|
                    0 <= y < j ==> ((#[trigger] spec_port_override(pv[y])) is None || spec_port_override(pv[y])
                        != spec_port_override(pv[i as int])),
            decreases i - j,
        {
            if overrides_collide(&ports[j], &ports[i]) {
                assert(spec_port_override(pv[j as int]) is Some && spec_port_override(pv[j as int])
                    == spec_port_override(pv[i as int]));
                return false;
            }
            j = j + 1;
        }
        i = i + 1;
    }
    true
}

/// The default memory request applied when a resource block leaves it out.
pub fn default_resource_memory() -> (r: String)
    ensures
        r@ == "128Mi"@,
{
    String::from_str("128Mi")
}

/// The default cpu request applied when a resource block leaves it out.
pub fn default_resource_cpu() -> (r: String)
    ensures
        r@ == "100m"@,
{
    String::from_str("100m")
}

} // verus!
