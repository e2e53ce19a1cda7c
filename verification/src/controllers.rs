use vstd::prelude::*;

use crate::models::{
    ChallengeDeploy, ChallengeFileModel, ChallengeModel, ChallengeValue, ChallengeValueDecayFunction,
    ChallengeValueDecayFunctionType, ChallengeValueType,
};

verus! {

/// The columns of one challenge row as the relational store hands them
/// over.
pub struct ChallengeRow {
    pub id: i32,
    pub name: String,
    pub flag: String,
    pub author: Option<String>,
    pub category: String,
    pub description: Option<String>,
    pub kind: ChallengeValueType,
    pub points: i32,
    pub initial_points: i32,
    pub hidden: bool,
    pub dynamic_flag: bool,
    pub hints: Vec<String>,
    pub deploy: Option<ChallengeDeploy>,
}

/// The columns of the dynamic-scoring row that exists for a dynamically
/// scored challenge.
#[derive(Clone, Copy, Debug, PartialEq, Eq, Structural)]
pub struct DynamicChallengeRow {
    pub minimum: i32,
    pub decay: i32,
    pub kind: ChallengeValueDecayFunctionType,
}

/// Reads and assembles challenge definitions out of the relational store's
/// rows.
pub struct ChallengeController;

impl ChallengeController {
    /// Assembles a full challenge definition out of its row and, for a
    /// dynamically scored challenge, the decay row: the scoring block takes
    /// its initial value from the stored initial points, and carries the
    /// decay parameters exactly when the challenge is dynamic.
    pub fn assemble_challenge(row: ChallengeRow, dynamic: Option<DynamicChallengeRow>) -> (r: ChallengeModel)
        requires
            row.kind is Dynamic <==> dynamic is Some,
        ensures
            r.id == row.id,
            r.name == row.name,
            r.flag == row.flag,
            r.author == row.author,
            r.category == row.category,
            r.description == row.description,
            r.hints == row.hints,
            r.dynamic_flag == row.dynamic_flag,
            r.hidden == row.hidden,
            r.value.kind == row.kind,
            r.value.initial_value == row.initial_points,
            (match dynamic {
                Some(d) => r.value.decay_function == Some(
                    ChallengeValueDecayFunction { kind: d.kind, decay: d.decay, minimum_value: d.minimum },
                ),
                None => r.value.decay_function is None,
            }),
            r.files@.len() == 0,
            r.deploy == row.deploy,
    {
        let decay_function = match dynamic {
            Some(d) => Some(ChallengeValueDecayFunction { kind: d.kind, decay: d.decay, minimum_value: d.minimum }),
            None => None,
        };
        let value = ChallengeValue { kind: row.kind, initial_value: row.initial_points, decay_function };
        let files: Vec<ChallengeFileModel> = Vec::new();
        ChallengeModel {
            id: row.id,
            name: row.name,
            flag: row.flag,
            author: row.author,
            category: row.category,
            description: row.description,
            hints: row.hints,
            dynamic_flag: row.dynamic_flag,
            hidden: row.hidden,
            value,
            files,
            deploy: row.deploy,
        }
    }
}

} // verus!
