use vstd::prelude::*;

use crate::forms::{containers_view, Container, ContainerV, Protocols};

verus! {

/// One connection link handed back to the client after a deploy: the full
/// host addressing a route object, and the protocol spoken over it.
#[derive(Clone, Debug, PartialEq, Eq)]
pub struct Link {
    pub url: String,
    pub protocol: Protocols,
}

pub struct LinkV {
    pub url: Seq<char>,
    pub protocol: Protocols,
}

impl View for Link {
    type V = LinkV;

    open spec fn view(&self) -> LinkV {
        LinkV { url: self.url@, protocol: self.protocol }
    }
}

/// The views of a link list.
pub open spec fn links_view(links: Seq<Link>) -> Seq<LinkV> {
    links.map_values(|l: Link| l@)
}

/// The payload returned by a successful deploy. Start and end time are the
/// store-assigned timestamps, in seconds.
#[derive(Clone, Debug, PartialEq, Eq)]
pub struct DeployChallengeResponse {
    pub id: String,
    pub links: Vec<Link>,
    pub start_time: i64,
    pub end_time: i64,
}

pub struct DeployChallengeResponseV {
    pub id: Seq<char>,
    pub links: Seq<LinkV>,
    pub start_time: int,
    pub end_time: int,
}

impl View for DeployChallengeResponse {
    type V = DeployChallengeResponseV;

    open spec fn view(&self) -> DeployChallengeResponseV {
        DeployChallengeResponseV {
            id: self.id@,
            links: links_view(self.links@),
            start_time: self.start_time as int,
            end_time: self.end_time as int,
        }
    }
}

/// A downloadable file attached to a challenge.
#[derive(Clone, Debug, PartialEq, Eq)]
pub struct ChallengeFileModel {
    pub id: String,
    pub name: String,
    pub url: String,
}

/// How a challenge is scored: a fixed value, or one that decays with solves.
#[derive(Clone, Copy, Debug, PartialEq, Eq, Structural)]
pub enum ChallengeValueType {
    Static,
    Dynamic,
}

/// The decay shape of a dynamically scored challenge.
#[derive(Clone, Copy, Debug, PartialEq, Eq, Structural)]
pub enum ChallengeValueDecayFunctionType {
    Logarithmic,
    Linear,
}

/// Whether a challenge's environment is shared or per-user.
#[derive(Clone, Copy, Debug, PartialEq, Eq, Structural)]
pub enum ChallengeDeployType {
    Static,
    Dynamic,
}

/// The decay parameters of a dynamically scored challenge.
#[derive(Clone, Copy, Debug, PartialEq, Eq, Structural)]
pub struct ChallengeValueDecayFunction {
    pub kind: ChallengeValueDecayFunctionType,
    pub decay: i32,
    pub minimum_value: i32,
}

/// The deployable part of a challenge definition: its containers.
#[derive(Clone, Debug, PartialEq, Eq)]
pub struct ChallengeDeploy {
    pub kind: ChallengeDeployType,
    pub containers: Vec<Container>,
}

pub struct ChallengeDeployV {
    pub kind: ChallengeDeployType,
    pub containers: Seq<ContainerV>,
}

impl View for ChallengeDeploy {
    type V = ChallengeDeployV;

    open spec fn view(&self) -> ChallengeDeployV {
        ChallengeDeployV {
            kind: self.kind,
            containers: containers_view(self.containers@),
        }
    }
}

/// A challenge's scoring block.
#[derive(Clone, Copy, Debug, PartialEq, Eq)]
pub struct ChallengeValue {
    pub kind: ChallengeValueType,
    pub initial_value: i32,
    pub decay_function: Option<ChallengeValueDecayFunction>,
}

/// A full challenge definition as the administrative side sees it.
#[derive(Clone, Debug, PartialEq, Eq)]
pub struct ChallengeModel {
    pub id: i32,
    pub name: String,
    pub flag: String,
    pub author: Option<String>,
    pub category: String,
    pub description: Option<String>,
    pub hints: Vec<String>,
    pub dynamic_flag: bool,
    pub hidden: bool,
    pub value: ChallengeValue,
    pub files: Vec<ChallengeFileModel>,
    pub deploy: Option<ChallengeDeploy>,
}

/// A challenge as the public listing shows it, together with the caller's
/// running instance of it, if any.
#[derive(Clone, Debug, PartialEq, Eq)]
pub struct PublicChallengeInfoModel {
    pub id: i32,
    pub name: String,
    pub author: Option<String>,
    pub category: String,
    pub description: Option<String>,
    pub points: i32,
    pub solved: Option<bool>,
    pub files: Vec<ChallengeFileModel>,
    pub hints: Vec<String>,
    pub deploy: Option<DeployChallengeResponse>,
}

} // verus!
