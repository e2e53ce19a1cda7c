use vstd::prelude::*;
use vstd::string::*;

use crate::forms::{
    containers_view, spec_distinct_port_domains, spec_valid_container_name, validate_container_name, validate_ports,
    Container, ContainerV,
};

verus! {

/// A file attached to a challenge at creation time.
#[derive(Clone, Debug, PartialEq, Eq)]
pub struct ChallengeFileForm {
    pub id: String,
    pub name: String,
    pub url: String,
}

/// How a submitted challenge is scored.
#[derive(Clone, Copy, Debug, PartialEq, Eq, Structural)]
pub enum ChallengeValueType {
    Static,
    Dynamic,
}

/// The decay shape of a dynamically scored challenge.
#[derive(Clone, Copy, Debug, PartialEq, Eq, Structural)]
pub enum ChallengeValueDecayFunctionType {
    Logarithmic,
    Linear,
}

/// Whether a challenge's environment is shared or per-user.
#[derive(Clone, Copy, Debug, PartialEq, Eq, Structural)]
pub enum ChallengeDeployType {
    Static,
    Dynamic,
}

/// The decay parameters of a dynamically scored challenge.
#[derive(Clone, Copy, Debug, PartialEq, Eq, Structural)]
pub struct ChallengeValueDecayFunction {
    pub kind: ChallengeValueDecayFunctionType,
    pub decay: i32,
    pub minimum_value: i32,
}

/// The deployable part of a submitted challenge: its containers.
#[derive(Clone, Debug, PartialEq, Eq)]
pub struct ChallengeDeploy {
    pub kind: ChallengeDeployType,
    pub containers: Vec<Container>,
}

/// The scoring block of a submitted challenge.
#[derive(Clone, Copy, Debug, PartialEq, Eq)]
pub struct ChallengeValue {
    pub kind: ChallengeValueType,
    pub initial_value: i32,
    pub decay_function: Option<ChallengeValueDecayFunction>,
}

/// A scoring block is acceptable: the initial value is not negative; a
/// decay function, when present, has a non-negative minimum not above the
/// initial value; and a dynamic type comes with a decay function.
pub open spec fn spec_valid_value(v: ChallengeValue) -> bool {
    &&& v.initial_value >= 0
    &&& (match v.decay_function {
        Some(d) => d.minimum_value >= 0 && v.initial_value >= d.minimum_value,
        None => true,
    })
    &&& (v.kind is Dynamic ==> v.decay_function is Some)
}

impl ChallengeValue {
    /// Accepts exactly the acceptable scoring blocks.
    pub fn validate(&self) -> (r: bool)
        ensures
            r == spec_valid_value(*self),
    {
        if self.initial_value < 0 {
            return false;
        }
        let decay_ok = match &self.decay_function {
            Some(d) => d.minimum_value >= 0 && self.initial_value >= d.minimum_value,
            None => true,
        };
        if !decay_ok {
            return false;
        }
        let dynamic_ok = match self.kind {
            ChallengeValueType::Dynamic => matches!(self.decay_function, Some(_)),
            ChallengeValueType::Static => true,
        };
        dynamic_ok
    }
}

/// The container names of a deploy specification are pairwise distinct.
pub open spec fn spec_distinct_container_names(containers: Seq<ContainerV>) -> bool {
    forall|i: int, j: int|
        0 <= i < j < containers.len() ==> (#[trigger] containers[i].name) != (#[trigger] containers[j].name)
}

/// Accepts a container list whose names are pairwise distinct.
pub fn validate_containers(containers: &Vec<Container>) -> (r: bool)
    ensures
        r == spec_distinct_container_names(containers_view(containers@)),
{
    let ghost cv = containers_view(containers@);
    let mut i: usize = 0;
    while i < containers.len()
        invariant
            0 <= i <= containers@.len(),
            cv == containers_view(containers@),
            forall|x: int, y: int| 0 <= x < y < i ==> (#[trigger] cv[x].name) != (#[trigger] cv[y].name),
        decreases containers@.len() - i,
    {
        let mut j: usize = 0;
        while j < i
            invariant
                0 <= j <= i < containers@.len(),
                cv == containers_view(containers@),
                forall|y: int| 0 <= y < j ==> (#[trigger] cv[y].name) != cv[i as int].name,
            decreases i - j,
        {
            if containers[j].name.eq(&containers[i].name) {
                assert(cv[j as int].name == cv[i as int].name);
                return false;
            }
            j = j + 1;
        }
        i = i + 1;
    }
    true
}

/// One container of a deploy specification is acceptable: a well-formed
/// name and pairwise distinct port domain overrides.
pub open spec fn spec_container_ok(c: ContainerV) -> bool {
    spec_valid_container_name(c.name) && spec_distinct_port_domains(c.ports)
}

/// A deploy specification is acceptable: at least one container, pairwise
/// distinct container names, and every container acceptable.
pub open spec fn spec_valid_deploy(containers: Seq<ContainerV>) -> bool {
    &&& containers.len() > 0
    &&& spec_distinct_container_names(containers)
    &&& forall|i: int| 0 <= i < containers.len() ==> spec_container_ok(#[trigger] containers[i])
}

impl ChallengeDeploy {
    /// Accepts exactly the acceptable deploy specifications.
    pub fn validate(&self) -> (r: bool)
        ensures
            r == spec_valid_deploy(containers_view(self.containers@)),
    {
        let ghost cv = containers_view(self.containers@);
        if self.containers.len() == 0 {
            return false;
        }
        if !validate_containers(&self.containers) {
            return false;
        }
        let mut i: usize = 0;
        while i < self.containers.len()
            invariant
                0 <= i <= self.containers@.len(),
                cv == containers_view(self.containers@),
                cv.len() > 0,
                spec_distinct_container_names(cv),
                forall|x: int| 0 <= x < i ==> spec_container_ok(#[trigger] cv[x]),
            decreases self.containers@.len() - i,
        {
            let container = &self.containers[i];
            assert(container@ == cv[i as int]);
            if !validate_container_name(container.name.as_str()) {
                assert(!spec_container_ok(cv[i as int]));
                return false;
            }
            if !validate_ports(&container.ports) {
                assert(!spec_container_ok(cv[i as int]));
                return false;
            }
            assert(spec_container_ok(cv[i as int]));
            i = i + 1;
        }
        true
    }
}

/// A challenge as the administrative side submits it.
#[derive(Clone, Debug, PartialEq, Eq)]
pub struct AddChallengeForm {
    pub name: String,
    pub flag: String,
    pub author: Option<String>,
    pub category: String,
    pub description: Option<String>,
    pub hints: Vec<String>,
    pub dynamic_flag: bool,
    pub hidden: bool,
    pub value: ChallengeValue,
    pub files: Vec<ChallengeFileForm>,
    pub deploy: Option<ChallengeDeploy>,
}

impl AddChallengeForm {
    /// Accepts a form whose scoring block is acceptable and whose deploy
    /// specification, when present, is acceptable too.
    pub fn validate(&self) -> (r: bool)
        ensures
            r == (spec_valid_value(self.value) && (match &self.deploy {
                Some(d) => spec_valid_deploy(containers_view(d.containers@)),
                None => true,
            })),
    {
        if !self.value.validate() {
            return false;
        }
        match &self.deploy {
            Some(d) => d.validate(),
            None => true,
        }
    }
}

/// Challenges are hidden unless the submitting administrator says
/// otherwise.
pub fn default_hidden_status() -> (r: bool)
    ensures
        r == true,
{
    true
}

} // verus!
