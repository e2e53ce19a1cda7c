use vstd::prelude::*;
use vstd::string::*;

use crate::cluster::{spec_failing_keys, ClusterOutcomes, ClusterResourceV, ClusterState};
use crate::errors::KubeCTFError;
use crate::forms::FlagSubmitRequest;
use crate::jwt::{Claims, UserRole};
use crate::models::{links_view, ChallengeDeploy, ChallengeDeployV, DeployChallengeResponse};
use crate::providers::Provider;
use crate::utils::{generate_container_links, not_found, spec_container_links};

verus! {

/// The slice of a challenge definition the lifecycle controller reads: the
/// current flag, visibility, and the deploy specification.
pub struct ChallengeRecord {
    pub id: i32,
    pub flag: String,
    pub hidden: bool,
    pub deploy: Option<ChallengeDeploy>,
}

pub struct ChallengeRecordV {
    pub id: int,
    pub flag: Seq<char>,
    pub hidden: bool,
    pub deploy: Option<ChallengeDeployV>,
}

impl View for ChallengeRecord {
    type V = ChallengeRecordV;

    open spec fn view(&self) -> ChallengeRecordV {
        ChallengeRecordV {
            id: self.id as int,
            flag: self.flag@,
            hidden: self.hidden,
            deploy: match self.deploy {
                Some(d) => Some(d@),
                None => None,
            },
        }
    }
}

/// One live instance: the entity the controller owns end to end. The flag
/// is the snapshot taken at deploy time, so later edits to the challenge
/// do not affect an already issued instance.
pub struct RunningInstance {
    pub id: String,
    pub challenge_id: i32,
    pub user_id: i32,
    pub flag: String,
    pub start_time: i64,
    pub end_time: i64,
}

pub struct RunningInstanceV {
    pub id: Seq<char>,
    pub challenge_id: int,
    pub user_id: int,
    pub flag: Seq<char>,
    pub start_time: int,
    pub end_time: int,
}

impl View for RunningInstance {
    type V = RunningInstanceV;

    open spec fn view(&self) -> RunningInstanceV {
        RunningInstanceV {
            id: self.id@,
            challenge_id: self.challenge_id as int,
            user_id: self.user_id as int,
            flag: self.flag@,
            start_time: self.start_time as int,
            end_time: self.end_time as int,
        }
    }
}

/// One append-only flag-submission record, written once per attempt.
pub struct Submission {
    pub user_id: i32,
    pub challenge_id: i32,
    pub is_correct: bool,
    pub answer: String,
    pub timestamp: i64,
}

pub struct SubmissionV {
    pub user_id: int,
    pub challenge_id: int,
    pub is_correct: bool,
    pub answer: Seq<char>,
    pub timestamp: int,
}

impl View for Submission {
    type V = SubmissionV;

    open spec fn view(&self) -> SubmissionV {
        SubmissionV {
            user_id: self.user_id as int,
            challenge_id: self.challenge_id as int,
            is_correct: self.is_correct,
            answer: self.answer@,
            timestamp: self.timestamp as int,
        }
    }
}

/// The views of the three relational tables.
pub open spec fn challenges_view(cs: Seq<ChallengeRecord>) -> Seq<ChallengeRecordV> {
    cs.map_values(|c: ChallengeRecord| c@)
}

pub open spec fn running_view(rs: Seq<RunningInstance>) -> Seq<RunningInstanceV> {
    rs.map_values(|r: RunningInstance| r@)
}

pub open spec fn submissions_view(ss: Seq<Submission>) -> Seq<SubmissionV> {
    ss.map_values(|s: Submission| s@)
}

/// The relational store: the authority for challenges, running instances
/// and submissions.
pub struct RelStore {
    pub challenges: Vec<ChallengeRecord>,
    pub running: Vec<RunningInstance>,
    pub submissions: Vec<Submission>,
}

pub struct RelStoreV {
    pub challenges: Seq<ChallengeRecordV>,
    pub running: Seq<RunningInstanceV>,
    pub submissions: Seq<SubmissionV>,
}

impl View for RelStore {
    type V = RelStoreV;

    open spec fn view(&self) -> RelStoreV {
        RelStoreV {
            challenges: challenges_view(self.challenges@),
            running: running_view(self.running@),
            submissions: submissions_view(self.submissions@),
        }
    }
}

/// The key-value index: a non-authoritative accelerator mapping a live
/// instance id to its owner.
pub struct KvIndex {
    pub entries: Vec<(String, i32)>,
}

/// The view of the index entries.
pub open spec fn entries_view(es: Seq<(String, i32)>) -> Seq<(Seq<char>, int)> {
    es.map_values(|e: (String, i32)| (e.0@, e.1 as int))
}

impl View for KvIndex {
    type V = Seq<(Seq<char>, int)>;

    open spec fn view(&self) -> Seq<(Seq<char>, int)> {
        entries_view(self.entries@)
    }
}

/// The first challenge with this id, if any.
pub open spec fn spec_find_challenge(cs: Seq<ChallengeRecordV>, id: int) -> Option<ChallengeRecordV>
    decreases cs.len(),
{
    if cs.len() == 0 {
        Option::None
    } else if cs[0].id == id {
        Option::Some(cs[0])
    } else {
        spec_find_challenge(cs.drop_first(), id)
    }
}

/// The first running instance with this id, if any.
pub open spec fn spec_find_running(rs: Seq<RunningInstanceV>, id: Seq<char>) -> Option<RunningInstanceV>
    decreases rs.len(),
{
    if rs.len() == 0 {
        Option::None
    } else if rs[0].id == id {
        Option::Some(rs[0])
    } else {
        spec_find_running(rs.drop_first(), id)
    }
}

/// The user already owns a running instance.
pub open spec fn spec_user_has_running(rs: Seq<RunningInstanceV>, user: int) -> bool {
    exists|i: int| 0 <= i < rs.len() && (#[trigger] rs[i]).user_id == user
}

/// The running instances without the rows carrying this id.
pub open spec fn spec_remove_running(rs: Seq<RunningInstanceV>, id: Seq<char>) -> Seq<RunningInstanceV>
    decreases rs.len(),
{
    if rs.len() == 0 {
        rs
    } else if rs[0].id == id {
        spec_remove_running(rs.drop_first(), id)
    } else {
        seq![rs[0]] + spec_remove_running(rs.drop_first(), id)
    }
}

/// An index entry with this key exists.
pub open spec fn spec_index_has(ix: Seq<(Seq<char>, int)>, id: Seq<char>) -> bool {
    exists|i: int| 0 <= i < ix.len() && (#[trigger] ix[i]).0 == id
}

/// The index without the entries carrying this key.
pub open spec fn spec_index_del(ix: Seq<(Seq<char>, int)>, id: Seq<char>) -> Seq<(Seq<char>, int)>
    decreases ix.len(),
{
    if ix.len() == 0 {
        ix
    } else if ix[0].0 == id {
        spec_index_del(ix.drop_first(), id)
    } else {
        seq![ix[0]] + spec_index_del(ix.drop_first(), id)
    }
}

/// The first candidate id the index does not know yet, if any: the mint
/// step retries while the index reports a collision.
pub open spec fn spec_mint(ix: Seq<(Seq<char>, int)>, candidates: Seq<Seq<char>>) -> Option<Seq<char>>
    decreases candidates.len(),
{
    if candidates.len() == 0 {
        Option::None
    } else if !spec_index_has(ix, candidates[0]) {
        Option::Some(candidates[0])
    } else {
        spec_mint(ix, candidates.drop_first())
    }
}

/// The views of a candidate-id list.
pub open spec fn ids_view(v: Seq<String>) -> Seq<Seq<char>> {
    v.map_values(|s: String| s@)
}

/// At most one running instance per user: the application-level invariant
/// the deploy conflict check maintains under non-concurrent access.
pub open spec fn spec_one_instance_per_user(rs: Seq<RunningInstanceV>) -> bool {
    forall|i: int, j: int| 0 <= i < j < rs.len() ==> (#[trigger] rs[i]).user_id != (#[trigger] rs[j]).user_id
}

impl RelStore {
    /// A store with nothing in it.
    pub fn new() -> (r: RelStore)
        ensures
            r@.challenges =~= Seq::<ChallengeRecordV>::empty(),
            r@.running =~= Seq::<RunningInstanceV>::empty(),
            r@.submissions =~= Seq::<SubmissionV>::empty(),
    {
        RelStore { challenges: Vec::new(), running: Vec::new(), submissions: Vec::new() }
    }

    /// The position of the challenge with this id, if any.
    fn find_challenge_idx(&self, id: i32) -> (r: Option<usize>)
        ensures
            (match r {
                Some(k) => 0 <= k < self@.challenges.len() && self@.challenges[k as int].id == id as int
                    && spec_find_challenge(self@.challenges, id as int) == Option::Some(self@.challenges[k as int]),
                None => spec_find_challenge(self@.challenges, id as int) is None,
            }),
    {
        let ghost cs = self@.challenges;
        proof {
            assert(cs.skip(0) =~= cs);
        }
        let mut i: usize = 0;
        while i < self.challenges.len()
            invariant
                0 <= i <= cs.len(),
                cs == self@.challenges,
                spec_find_challenge(cs, id as int) == spec_find_challenge(cs.skip(i as int), id as int),
                forall|j: int| 0 <= j < i ==> (#[trigger] cs[j]).id != id as int,
            decreases cs.len() - i,
        {
            proof {
                assert(cs.skip(i as int)[0] == cs[i as int]);
                assert(cs.skip(i as int).drop_first() =~= cs.skip(i + 1));
            }
            if self.challenges[i].id == id {
                return Some(i);
            }
            i = i + 1;
        }
        proof {
            assert(cs.skip(cs.len() as int) =~= Seq::<ChallengeRecordV>::empty());
        }
        None
    }

    /// The position of the running instance with this id, if any.
    fn find_running_idx(&self, id: &String) -> (r: Option<usize>)
        ensures
            (match r {
                Some(k) => 0 <= k < self@.running.len() && self@.running[k as int].id == id@ && spec_find_running(
                    self@.running,
                    id@,
                ) == Option::Some(self@.running[k as int]),
                None => spec_find_running(self@.running, id@) is None,
            }),
    {
        let ghost rs = self@.running;
        proof {
            assert(rs.skip(0) =~= rs);
        }
        let mut i: usize = 0;
        while i < self.running.len()
            invariant
                0 <= i <= rs.len(),
                rs == self@.running,
                spec_find_running(rs, id@) == spec_find_running(rs.skip(i as int), id@),
                forall|j: int| 0 <= j < i ==> (#[trigger] rs[j]).id != id@,
            decreases rs.len() - i,
        {
            proof {
                assert(rs.skip(i as int)[0] == rs[i as int]);
                assert(rs.skip(i as int).drop_first() =~= rs.skip(i + 1));
            }
            if self.running[i].id.eq(id) {
                return Some(i);
            }
            i = i + 1;
        }
        proof {
            assert(rs.skip(rs.len() as int) =~= Seq::<RunningInstanceV>::empty());
        }
        None
    }

    /// The position of some running instance of this user, if any.
    fn find_user_running_idx(&self, user_id: i32) -> (r: Option<usize>)
        ensures
            (match r {
                Some(k) => 0 <= k < self@.running.len() && self@.running[k as int].user_id == user_id as int,
                None => !spec_user_has_running(self@.running, user_id as int),
            }),
            (r is Some) == spec_user_has_running(self@.running, user_id as int),
    {
        let ghost rs = self@.running;
        let mut i: usize = 0;
        while i < self.running.len()
            invariant
                0 <= i <= rs.len(),
                rs == self@.running,
                forall|j: int| 0 <= j < i ==> (#[trigger] rs[j]).user_id != user_id as int,
            decreases rs.len() - i,
        {
            if self.running[i].user_id == user_id {
                assert(rs[i as int].user_id == user_id as int);
                return Some(i);
            }
            i = i + 1;
        }
        None
    }

    /// Removes the running rows carrying this id, leaving the other two
    /// tables untouched.
    fn remove_running(&mut self, id: &String)
        ensures
            final(self)@.running == spec_remove_running(old(self)@.running, id@),
            final(self)@.challenges == old(self)@.challenges,
            final(self)@.submissions == old(self)@.submissions,
    {
        let ghost rs = self@.running;
        let mut kept: Vec<RunningInstance> = Vec::new();
        let mut i: usize = 0;
        while i < self.running.len()
            invariant
                0 <= i <= rs.len(),
                rs == self@.running,
                self.running@ == old(self).running@,
                self.challenges@ == old(self).challenges@,
                self.submissions@ == old(self).submissions@,
                running_view(kept@) == spec_remove_running(rs.take(i as int), id@),
            decreases rs.len() - i,
        {
            proof {
                lemma_remove_running_take_step(rs, id@, i as int);
            }
            if self.running[i].id.eq(id) {
                proof {
                    assert(running_view(kept@) =~= spec_remove_running(rs.take(i + 1), id@));
                }
            } else {
                let ghost prevk = kept@;
                let row = RunningInstance {
                    id: self.running[i].id.clone(),
                    challenge_id: self.running[i].challenge_id,
                    user_id: self.running[i].user_id,
                    flag: self.running[i].flag.clone(),
                    start_time: self.running[i].start_time,
                    end_time: self.running[i].end_time,
                };
                assert(row@ == rs[i as int]);
                kept.push(row);
                proof {
                    assert(running_view(kept@) =~= running_view(prevk).push(rs[i as int]));
                    assert(running_view(kept@) =~= spec_remove_running(rs.take(i + 1), id@));
                }
            }
            i = i + 1;
        }
        proof {
            assert(rs.take(rs.len() as int) =~= rs);
        }
        self.running = kept;
    }
}

/// Removing the labeled rows of a prefix, one element further.
proof fn lemma_remove_running_take_step(rs: Seq<RunningInstanceV>, id: Seq<char>, i: int)
    requires
        0 <= i < rs.len(),
    ensures
        spec_remove_running(rs.take(i + 1), id) == if rs[i].id == id {
            spec_remove_running(rs.take(i), id)
        } else {
            spec_remove_running(rs.take(i), id) + seq![rs[i]]
        },
    decreases i,
{
    let pre = rs.take(i + 1);
    if i == 0 {
        assert(pre.drop_first() =~= rs.take(0));
        if rs[0].id == id {
            assert(spec_remove_running(pre, id) =~= spec_remove_running(rs.take(0), id));
        } else {
            assert(spec_remove_running(pre, id) =~= spec_remove_running(rs.take(0), id) + seq![rs[0]]);
        }
    } else {
        lemma_remove_running_take_step(rs.drop_first(), id, i - 1);
        assert(pre.drop_first() =~= rs.drop_first().take(i));
        assert(rs.take(i).drop_first() =~= rs.drop_first().take(i - 1));
        assert(rs.drop_first()[i - 1] == rs[i]);
        if rs[i].id == id {
            assert(spec_remove_running(pre, id) =~= spec_remove_running(rs.take(i), id));
        } else {
            assert(spec_remove_running(pre, id) =~= spec_remove_running(rs.take(i), id) + seq![rs[i]]);
        }
    }
}

/// Removing the keyed entries of a prefix, one element further.
proof fn lemma_index_del_take_step(ix: Seq<(Seq<char>, int)>, id: Seq<char>, i: int)
    requires
        0 <= i < ix.len(),
    ensures
        spec_index_del(ix.take(i + 1), id) == if ix[i].0 == id {
            spec_index_del(ix.take(i), id)
        } else {
            spec_index_del(ix.take(i), id) + seq![ix[i]]
        },
    decreases i,
{
    let pre = ix.take(i + 1);
    if i == 0 {
        assert(pre.drop_first() =~= ix.take(0));
        if ix[0].0 == id {
            assert(spec_index_del(pre, id) =~= spec_index_del(ix.take(0), id));
        } else {
            assert(spec_index_del(pre, id) =~= spec_index_del(ix.take(0), id) + seq![ix[0]]);
        }
    } else {
        lemma_index_del_take_step(ix.drop_first(), id, i - 1);
        assert(pre.drop_first() =~= ix.drop_first().take(i));
        assert(ix.take(i).drop_first() =~= ix.drop_first().take(i - 1));
        assert(ix.drop_first()[i - 1] == ix[i]);
        if ix[i].0 == id {
            assert(spec_index_del(pre, id) =~= spec_index_del(ix.take(i), id));
        } else {
            assert(spec_index_del(pre, id) =~= spec_index_del(ix.take(i), id) + seq![ix[i]]);
        }
    }
}

impl KvIndex {
    /// An index with nothing in it.
    pub fn new() -> (r: KvIndex)
        ensures
            r@ =~= Seq::<(Seq<char>, int)>::empty(),
    {
        KvIndex { entries: Vec::new() }
    }

    /// Whether an entry with this key exists.
    pub fn contains(&self, id: &String) -> (r: bool)
        ensures
            r == spec_index_has(self@, id@),
    {
        let mut i: usize = 0;
        while i < self.entries.len()
            invariant
                0 <= i <= self@.len(),
                forall|j: int| 0 <= j < i ==> (#[trigger] self@[j]).0 != id@,
            decreases self@.len() - i,
        {
            if self.entries[i].0.eq(id) {
                assert(self@[i as int].0 == id@);
                return true;
            }
            i = i + 1;
        }
        false
    }

    /// Writes the entry for a fresh key.
    pub fn set(&mut self, id: &String, user_id: i32)
        requires
            !spec_index_has(old(self)@, id@),
        ensures
            final(self)@ == old(self)@.push((id@, user_id as int)),
    {
        let ghost prev = self.entries@;
        self.entries.push((id.clone(), user_id));
        proof {
            assert(entries_view(self.entries@) =~= entries_view(prev).push((id@, user_id as int)));
        }
    }

    /// Removes the entries with this key; removing an absent key is a
    /// no-op.
    pub fn del(&mut self, id: &String)
        ensures
            final(self)@ == spec_index_del(old(self)@, id@),
    {
        let ghost ix = self@;
        let mut kept: Vec<(String, i32)> = Vec::new();
        let mut i: usize = 0;
        while i < self.entries.len()
            invariant
                0 <= i <= ix.len(),
                ix == self@,
                self.entries@ == old(self).entries@,
                entries_view(kept@) == spec_index_del(ix.take(i as int), id@),
            decreases ix.len() - i,
        {
            proof {
                lemma_index_del_take_step(ix, id@, i as int);
            }
            if self.entries[i].0.eq(id) {
                proof {
                    assert(entries_view(kept@) =~= spec_index_del(ix.take(i + 1), id@));
                }
            } else {
                let ghost prevk = kept@;
                let entry = (self.entries[i].0.clone(), self.entries[i].1);
                kept.push(entry);
                proof {
                    assert(entries_view(kept@) =~= entries_view(prevk).push(ix[i as int]));
                    assert(entries_view(kept@) =~= spec_index_del(ix.take(i + 1), id@));
                }
            }
            i = i + 1;
        }
        proof {
            assert(ix.take(ix.len() as int) =~= ix);
        }
        self.entries = kept;
    }
}

/// The injected behavior of the stores for one delete call.
pub struct DeleteOutcomes {
    pub row_delete_fails: bool,
    pub index_del_fails: bool,
    pub commit_fails: bool,
}

/// The injected behavior of the stores for one submit call.
pub struct SubmitOutcomes {
    pub submission_insert_fails: bool,
    pub row_delete_fails: bool,
    pub index_del_fails: bool,
}

/// What a flag submission came to: the matching flag tears the instance
/// down, the wrong one is a plain rejection.
#[derive(Clone, Copy, Debug, PartialEq, Eq, Structural)]
pub enum SubmitStatus {
    Correct,
    Incorrect,
}

/// Explicit instance deletion. Loads the instance, refuses a caller who
/// does not own it, tears the infrastructure down best-effort, then
/// removes the row and, best-effort, the index entry.
pub fn delete_challenge<P: Provider>(
    provider: &P,
    store: &mut RelStore,
    index: &mut KvIndex,
    cluster: &mut ClusterState,
    claims: &Claims,
    instance_id: &String,
    outcomes: &DeleteOutcomes,
) -> (r: core::result::Result<(), KubeCTFError>)
    ensures
        final(store)@.challenges == old(store)@.challenges,
        final(store)@.submissions == old(store)@.submissions,
        spec_one_instance_per_user(old(store)@.running) ==> spec_one_instance_per_user(final(store)@.running),
        (match spec_find_running(old(store)@.running, instance_id@) {
            Option::None => {
                &&& r matches Err(e) && e is NotFound && e.spec_message() == "No running instance found with this ID."@
                &&& final(store)@ == old(store)@
                &&& final(index)@ == old(index)@
                &&& final(cluster)@ == old(cluster)@
            },
            Option::Some(row) => {
                if row.user_id != claims.user_id as int {
                    &&& r matches Err(e) && e is Forbidden && e.spec_message()
                        == "You are not allowed to delete this challenge."@
                    &&& final(store)@ == old(store)@
                    &&& final(index)@ == old(index)@
                    &&& final(cluster)@ == old(cluster)@
                } else {
                    &&& (exists|okd: bool|
                        provider.delete_post(old(cluster)@, final(cluster)@, instance_id@, okd))
                    &&& (outcomes.row_delete_fails ==> (r matches Err(e) && e is DatabaseError && final(store)@
                        == old(store)@ && final(index)@ == old(index)@))
                    &&& (!outcomes.row_delete_fails && outcomes.commit_fails ==> (r matches Err(e)
                        && e is DatabaseError && final(store)@ == old(store)@ && final(index)@ == (
                        if outcomes.index_del_fails {
                            old(index)@
                        } else {
                            spec_index_del(old(index)@, instance_id@)
                        })))
                    &&& (!outcomes.row_delete_fails && !outcomes.commit_fails ==> r is Ok && final(store)@.running
                        == spec_remove_running(old(store)@.running, instance_id@) && final(index)@ == (
                        if outcomes.index_del_fails {
                            old(index)@
                        } else {
                            spec_index_del(old(index)@, instance_id@)
                        }))
                }
            },
        }),
{
    let found = store.find_running_idx(instance_id);
    let k = match found {
        None => {
            return Err(KubeCTFError::NotFound(String::from_str("No running instance found with this ID.")));
        },
        Some(k) => k,
    };
    if store.running[k].user_id != claims.user_id {
        return Err(KubeCTFError::Forbidden(String::from_str("You are not allowed to delete this challenge.")));
    }
    let _ = provider.delete_instnace(cluster, instance_id);
    if outcomes.row_delete_fails {
        return Err(KubeCTFError::DatabaseError(String::from_str("failed to delete the running instance row")));
    }
    if !outcomes.index_del_fails {
        index.del(instance_id);
    }
    if outcomes.commit_fails {
        return Err(KubeCTFError::DatabaseError(String::from_str("failed to commit the transaction")));
    }
    store.remove_running(instance_id);
    proof {
        lemma_remove_running_keeps_users(old(store)@.running, instance_id@);
    }
    Ok(())
}

/// Rows that survive a removal keep their user, so removing rows keeps the
/// one-instance-per-user property.
proof fn lemma_remove_running_keeps_users(rs: Seq<RunningInstanceV>, id: Seq<char>)
    ensures
        forall|i: int|
            0 <= i < spec_remove_running(rs, id).len() ==> rs.contains(#[trigger] spec_remove_running(rs, id)[i]),
        spec_one_instance_per_user(rs) ==> spec_one_instance_per_user(spec_remove_running(rs, id)),
    decreases rs.len(),
{
    lemma_remove_running_subset(rs, id);
    if spec_one_instance_per_user(rs) {
        let out = spec_remove_running(rs, id);
        assert forall|i: int, j: int| 0 <= i < j < out.len() implies (#[trigger] out[i]).user_id != (
        #[trigger] out[j]).user_id by {
            lemma_remove_running_distinct(rs, id, i, j);
        }
    }
}

/// The removal keeps a subsequence: every surviving row came from the
/// original table.
proof fn lemma_remove_running_subset(rs: Seq<RunningInstanceV>, id: Seq<char>)
    ensures
        forall|i: int|
            0 <= i < spec_remove_running(rs, id).len() ==> rs.contains(#[trigger] spec_remove_running(rs, id)[i]),
    decreases rs.len(),
{
    if rs.len() > 0 {
        lemma_remove_running_subset(rs.drop_first(), id);
        let out = spec_remove_running(rs, id);
        let sub = spec_remove_running(rs.drop_first(), id);
        assert forall|i: int| 0 <= i < out.len() implies rs.contains(#[trigger] out[i]) by {
            if rs[0].id == id {
                assert(out[i] == sub[i]);
                let w = choose|w: int| 0 <= w < rs.drop_first().len() && rs.drop_first()[w] == sub[i];
                assert(rs[w + 1] == sub[i]);
            } else {
                if i == 0 {
                    assert(out[0] == rs[0]);
                } else {
                    assert(out[i] == sub[i - 1]);
                    let w = choose|w: int| 0 <= w < rs.drop_first().len() && rs.drop_first()[w] == sub[i - 1];
                    assert(rs[w + 1] == sub[i - 1]);
                }
            }
        }
    }
}

/// Two distinct survivors of a removal sit at two distinct source rows.
proof fn lemma_remove_running_distinct(rs: Seq<RunningInstanceV>, id: Seq<char>, i: int, j: int)
    requires
        spec_one_instance_per_user(rs),
        0 <= i < j < spec_remove_running(rs, id).len(),
    ensures
        spec_remove_running(rs, id)[i].user_id != spec_remove_running(rs, id)[j].user_id,
    decreases rs.len(),
{
    let out = spec_remove_running(rs, id);
    let sub = spec_remove_running(rs.drop_first(), id);
    assert(rs.len() > 0);
    assert forall|x: int, y: int|
        0 <= x < y < rs.drop_first().len() implies (#[trigger] rs.drop_first()[x]).user_id != (
    #[trigger] rs.drop_first()[y]).user_id by {
        assert(rs.drop_first()[x] == rs[x + 1]);
        assert(rs.drop_first()[y] == rs[y + 1]);
    }
    if rs[0].id == id {
        lemma_remove_running_distinct(rs.drop_first(), id, i, j);
    } else {
        if i == 0 {
            assert(out[0] == rs[0]);
            assert(out[j] == sub[j - 1]);
            lemma_remove_running_subset(rs.drop_first(), id);
            let w = choose|w: int| 0 <= w < rs.drop_first().len() && rs.drop_first()[w] == sub[j - 1];
            assert(rs[w + 1] == sub[j - 1]);
        } else {
            lemma_remove_running_distinct(rs.drop_first(), id, i - 1, j - 1);
        }
    }
}

/// Flag submission. Loads the caller's instance by id, compares the
/// submitted flag to the snapshot, always records the attempt, and on a
/// correct flag tears the instance down.
pub fn submit<P: Provider>(
    provider: &P,
    store: &mut RelStore,
    index: &mut KvIndex,
    cluster: &mut ClusterState,
    claims: &Claims,
    form: &FlagSubmitRequest,
    now: i64,
    outcomes: &SubmitOutcomes,
) -> (r: core::result::Result<SubmitStatus, KubeCTFError>)
    ensures
        final(store)@.challenges == old(store)@.challenges,
        spec_one_instance_per_user(old(store)@.running) ==> spec_one_instance_per_user(final(store)@.running),
        (match spec_find_running(old(store)@.running, form.instance_id@) {
            Option::None => {
                &&& r matches Err(e) && e is NotFound
                &&& final(store)@ == old(store)@
                &&& final(index)@ == old(index)@
                &&& final(cluster)@ == old(cluster)@
            },
            Option::Some(row) => {
                if row.user_id != claims.user_id as int {
                    &&& r matches Err(e) && e is NotFound
                    &&& final(store)@ == old(store)@
                    &&& final(index)@ == old(index)@
                    &&& final(cluster)@ == old(cluster)@
                } else if outcomes.submission_insert_fails {
                    &&& r matches Err(e) && e is DatabaseError
                    &&& final(store)@ == old(store)@
                    &&& final(index)@ == old(index)@
                    &&& final(cluster)@ == old(cluster)@
                } else {
                    let recorded = SubmissionV {
                        user_id: claims.user_id as int,
                        challenge_id: row.challenge_id,
                        is_correct: form.flag@ == row.flag,
                        answer: form.flag@,
                        timestamp: now as int,
                    };
                    &&& final(store)@.submissions == old(store)@.submissions.push(recorded)
                    &&& (form.flag@ != row.flag ==> r == Ok::<SubmitStatus, KubeCTFError>(SubmitStatus::Incorrect)
                        && final(store)@.running == old(store)@.running && final(index)@ == old(index)@
                        && final(cluster)@ == old(cluster)@)
                    &&& (form.flag@ == row.flag ==> {
                        &&& (exists|okd: bool|
                            provider.delete_post(old(cluster)@, final(cluster)@, form.instance_id@, okd))
                        &&& (outcomes.row_delete_fails ==> (r matches Err(e) && e is DatabaseError && final(store)@.running
                            == old(store)@.running && final(index)@ == old(index)@))
                        &&& (!outcomes.row_delete_fails ==> r == Ok::<SubmitStatus, KubeCTFError>(
                            SubmitStatus::Correct,
                        ) && final(store)@.running == spec_remove_running(old(store)@.running, form.instance_id@)
                            && final(index)@ == (if outcomes.index_del_fails {
                            old(index)@
                        } else {
                            spec_index_del(old(index)@, form.instance_id@)
                        }))
                    })
                }
            },
        }),
{
    let found = store.find_running_idx(&form.instance_id);
    let k = match found {
        None => {
            return Err(crate::utils::not_found());
        },
        Some(k) => k,
    };
    if store.running[k].user_id != claims.user_id {
        return Err(crate::utils::not_found());
    }
    let correct = store.running[k].flag.eq(&form.flag);
    let challenge_id = store.running[k].challenge_id;
    if outcomes.submission_insert_fails {
        return Err(KubeCTFError::DatabaseError(String::from_str("failed to record the submission")));
    }
    let ghost prev_subs = store.submissions@;
    let record = Submission {
        user_id: claims.user_id,
        challenge_id,
        is_correct: correct,
        answer: form.flag.clone(),
        timestamp: now,
    };
    store.submissions.push(record);
    proof {
        assert(submissions_view(store.submissions@) =~= submissions_view(prev_subs).push(
            SubmissionV {
                user_id: claims.user_id as int,
                challenge_id: challenge_id as int,
                is_correct: correct,
                answer: form.flag@,
                timestamp: now as int,
            },
        ));
    }
    if !correct {
        return Ok(SubmitStatus::Incorrect);
    }
    let _ = provider.delete_instnace(cluster, &form.instance_id);
    if outcomes.row_delete_fails {
        return Err(KubeCTFError::DatabaseError(String::from_str("failed to delete the running instance row")));
    }
    store.remove_running(&form.instance_id);
    proof {
        lemma_remove_running_keeps_users(old(store)@.running, form.instance_id@);
    }
    if !outcomes.index_del_fails {
        index.del(&form.instance_id);
    }
    Ok(SubmitStatus::Correct)
}

/// A minted id is one the index did not know.
proof fn lemma_mint_fresh(ix: Seq<(Seq<char>, int)>, candidates: Seq<Seq<char>>)
    ensures
        (match spec_mint(ix, candidates) {
            Option::Some(id) => !spec_index_has(ix, id),
            Option::None => true,
        }),
    decreases candidates.len(),
{
    if candidates.len() > 0 {
        lemma_mint_fresh(ix, candidates.drop_first());
    }
}

/// Mints a candidate instance id: the first one the key-value index does
/// not already know.
fn mint_instance_id(index: &KvIndex, candidates: &Vec<String>) -> (r: Option<String>)
    ensures
        (match r {
            Some(id) => spec_mint(index@, ids_view(candidates@)) == Option::Some(id@),
            None => spec_mint(index@, ids_view(candidates@)) is None,
        }),
{
    let ghost cands = ids_view(candidates@);
    proof {
        assert(cands.skip(0) =~= cands);
    }
    let mut i: usize = 0;
    while i < candidates.len()
        invariant
            0 <= i <= cands.len(),
            cands == ids_view(candidates@),
            spec_mint(index@, cands) == spec_mint(index@, cands.skip(i as int)),
        decreases cands.len() - i,
    {
        proof {
            assert(cands.skip(i as int)[0] == cands[i as int]);
            assert(cands.skip(i as int).drop_first() =~= cands.skip(i + 1));
        }
        if !index.contains(&candidates[i]) {
            return Some(candidates[i].clone());
        }
        i = i + 1;
    }
    proof {
        assert(cands.skip(cands.len() as int) =~= Seq::<Seq<char>>::empty());
    }
    None
}

/// The injected behavior of the stores and the orchestration target for
/// one deploy call.
pub struct DeployOutcomes {
    pub cluster: ClusterOutcomes,
    pub insert_fails: bool,
    pub index_set_fails: bool,
    pub commit_fails: bool,
}

/// Deploy: the idle-to-running transition for one user. Loads the
/// challenge (a hidden one is not found for a regular user), refuses a
/// second instance for the same user, mints a fresh instance id against
/// the index, asks the provider to materialize the infrastructure, then
/// persists the row and the index entry. Any failure after the
/// infrastructure exists tears it down best-effort before the error is
/// propagated; an index entry already written when the commit fails stays
/// behind, as the stores offer no transaction spanning both.
pub fn deploy_challenge<P: Provider>(
    provider: &P,
    store: &mut RelStore,
    index: &mut KvIndex,
    cluster: &mut ClusterState,
    claims: &Claims,
    challenge_id: i32,
    candidates: &Vec<String>,
    start_time: i64,
    end_time: i64,
    base_domain: &str,
    outcomes: &DeployOutcomes,
) -> (r: core::result::Result<DeployChallengeResponse, KubeCTFError>)
    ensures
        final(store)@.challenges == old(store)@.challenges,
        final(store)@.submissions == old(store)@.submissions,
        spec_one_instance_per_user(old(store)@.running) ==> spec_one_instance_per_user(final(store)@.running),
        (match spec_find_challenge(old(store)@.challenges, challenge_id as int) {
            Option::None => {
                &&& r matches Err(e) && e is NotFound && e.spec_message() == "No challenge was found with that id."@
                &&& final(store)@ == old(store)@
                &&& final(index)@ == old(index)@
                &&& final(cluster)@ == old(cluster)@
            },
            Option::Some(c) => {
                if c.hidden && claims.role is User {
                    &&& r matches Err(e) && e is NotFound && e.spec_message()
                        == "No challenge was found with that id."@
                    &&& final(store)@ == old(store)@
                    &&& final(index)@ == old(index)@
                    &&& final(cluster)@ == old(cluster)@
                } else if spec_user_has_running(old(store)@.running, claims.user_id as int) {
                    &&& r matches Err(e) && e is Conflict && (exists|k: int|
                        0 <= k < old(store)@.running.len() && (#[trigger] old(store)@.running[k]).user_id
                            == claims.user_id as int && e.spec_message() == "You already have running challenge - "@
                            + old(store)@.running[k].id + "."@)
                    &&& final(store)@ == old(store)@
                    &&& final(index)@ == old(index)@
                    &&& final(cluster)@ == old(cluster)@
                } else {
                    match spec_mint(old(index)@, ids_view(candidates@)) {
                        Option::None => {
                            &&& r matches Err(e) && e is ShitHappened
                            &&& final(store)@ == old(store)@
                            &&& final(index)@ == old(index)@
                            &&& final(cluster)@ == old(cluster)@
                        },
                        Option::Some(id) => (match c.deploy {
                            Option::None => {
                                &&& r matches Err(e) && e is ShitHappened && e.spec_message()
                                    == "No deploy configuration found for challenge"@
                                &&& final(store)@ == old(store)@
                                &&& final(index)@ == old(index)@
                                &&& final(cluster)@ == old(cluster)@
                            },
                            Option::Some(d) => {
                                &&& (r matches Ok(resp) ==> {
                                    &&& provider.create_post(
                                        old(cluster)@,
                                        final(cluster)@,
                                        d.containers,
                                        id,
                                        true,
                                        spec_failing_keys(&outcomes.cluster),
                                    )
                                    &&& !outcomes.insert_fails && !outcomes.index_set_fails
                                        && !outcomes.commit_fails
                                    &&& final(store)@.running == old(store)@.running.push(
                                        RunningInstanceV {
                                            id: id,
                                            challenge_id: challenge_id as int,
                                            user_id: claims.user_id as int,
                                            flag: c.flag,
                                            start_time: start_time as int,
                                            end_time: end_time as int,
                                        },
                                    )
                                    &&& final(index)@ == old(index)@.push((id, claims.user_id as int))
                                    &&& resp.id@ == id
                                    &&& links_view(resp.links@) == spec_container_links(
                                        d.containers,
                                        id,
                                        base_domain@,
                                    )
                                    &&& resp.start_time == start_time
                                    &&& resp.end_time == end_time
                                })
                                &&& (r matches Err(e) ==> {
                                    ||| {
                                        &&& e is DeployError
                                        &&& final(store)@ == old(store)@
                                        &&& final(index)@ == old(index)@
                                        &&& provider.create_post(
                                            old(cluster)@,
                                            final(cluster)@,
                                            d.containers,
                                            id,
                                            false,
                                            spec_failing_keys(&outcomes.cluster),
                                        )
                                    }
                                    ||| {
                                        &&& outcomes.insert_fails
                                        &&& e is DatabaseError
                                        &&& final(store)@ == old(store)@
                                        &&& final(index)@ == old(index)@
                                        &&& (exists|mid: Seq<ClusterResourceV>, okd: bool|
                                            provider.create_post(
                                                old(cluster)@,
                                                mid,
                                                d.containers,
                                                id,
                                                true,
                                                spec_failing_keys(&outcomes.cluster),
                                            ) && provider.delete_post(mid, final(cluster)@, id, okd))
                                    }
                                    ||| {
                                        &&& !outcomes.insert_fails && outcomes.index_set_fails
                                        &&& e is RedisError
                                        &&& final(store)@ == old(store)@
                                        &&& final(index)@ == old(index)@
                                        &&& (exists|mid: Seq<ClusterResourceV>, okd: bool|
                                            provider.create_post(
                                                old(cluster)@,
                                                mid,
                                                d.containers,
                                                id,
                                                true,
                                                spec_failing_keys(&outcomes.cluster),
                                            ) && provider.delete_post(mid, final(cluster)@, id, okd))
                                    }
                                    ||| {
                                        &&& !outcomes.insert_fails && !outcomes.index_set_fails
                                            && outcomes.commit_fails
                                        &&& e is DatabaseError
                                        &&& final(store)@ == old(store)@
                                        &&& final(index)@ == old(index)@.push((id, claims.user_id as int))
                                        &&& (exists|mid: Seq<ClusterResourceV>, okd: bool|
                                            provider.create_post(
                                                old(cluster)@,
                                                mid,
                                                d.containers,
                                                id,
                                                true,
                                                spec_failing_keys(&outcomes.cluster),
                                            ) && provider.delete_post(mid, final(cluster)@, id, okd))
                                    }
                                })
                            },
                        }),
                    }
                }
            },
        }),
{
    let chal_idx = store.find_challenge_idx(challenge_id);
    let k = match chal_idx {
        None => {
            return Err(not_found());
        },
        Some(k) => k,
    };
    if store.challenges[k].hidden && matches!(claims.role, UserRole::User) {
        return Err(not_found());
    }
    if let Some(existing) = store.find_user_running_idx(claims.user_id) {
        let mut message = String::from_str("You already have running challenge - ");
        message.append(store.running[existing].id.as_str());
        message.append(".");
        assert(message@ == "You already have running challenge - "@ + old(store)@.running[existing as int].id
            + "."@);
        return Err(KubeCTFError::Conflict(message));
    }
    let minted = mint_instance_id(index, candidates);
    let id = match minted {
        None => {
            return Err(
                KubeCTFError::ShitHappened(String::from_str("No fresh instance id candidate was available")),
            );
        },
        Some(id) => id,
    };
    let flag = store.challenges[k].flag.clone();
    let containers = match &store.challenges[k].deploy {
        Some(d) => &d.containers,
        None => {
            return Err(
                KubeCTFError::ShitHappened(String::from_str("No deploy configuration found for challenge")),
            );
        },
    };
    if let Err(e) = provider.create_instnace(cluster, containers, &id, &outcomes.cluster) {
        return Err(e);
    }
    let ghost mid = cluster@;
    let links = generate_container_links(base_domain, id.as_str(), containers);
    if outcomes.insert_fails {
        let deleted = provider.delete_instnace(cluster, &id);
        proof {
            assert(provider.delete_post(mid, cluster@, id@, deleted is Ok));
        }
        return Err(KubeCTFError::DatabaseError(String::from_str("failed to insert the running instance row")));
    }
    if outcomes.index_set_fails {
        let deleted = provider.delete_instnace(cluster, &id);
        proof {
            assert(provider.delete_post(mid, cluster@, id@, deleted is Ok));
        }
        return Err(KubeCTFError::RedisError(String::from_str("failed to set the index entry")));
    }
    proof {
        lemma_mint_fresh(old(index)@, ids_view(candidates@));
    }
    index.set(&id, claims.user_id);
    if outcomes.commit_fails {
        let deleted = provider.delete_instnace(cluster, &id);
        proof {
            assert(provider.delete_post(mid, cluster@, id@, deleted is Ok));
        }
        return Err(KubeCTFError::DatabaseError(String::from_str("failed to commit the transaction")));
    }
    let ghost prev_running = store.running@;
    let row = RunningInstance {
        id: id.clone(),
        challenge_id,
        user_id: claims.user_id,
        flag,
        start_time,
        end_time,
    };
    store.running.push(row);
    proof {
        assert(running_view(store.running@) =~= running_view(prev_running).push(
            RunningInstanceV {
                id: id@,
                challenge_id: challenge_id as int,
                user_id: claims.user_id as int,
                flag: old(store)@.challenges[k as int].flag,
                start_time: start_time as int,
                end_time: end_time as int,
            },
        ));
        if spec_one_instance_per_user(running_view(prev_running)) {
            let out = running_view(store.running@);
            assert forall|i: int, j: int| 0 <= i < j < out.len() implies (#[trigger] out[i]).user_id != (
            #[trigger] out[j]).user_id by {
                if j == out.len() - 1 {
                    assert(out[i] == running_view(prev_running)[i]);
                    assert(!spec_user_has_running(running_view(prev_running), claims.user_id as int));
                }
            }
        }
    }
    let response = DeployChallengeResponse { id, links, start_time, end_time };
    Ok(response)
}

/// At any observation point of a state where the one-instance-per-user
/// property holds, two running rows of the same user are the same row: the
/// deploy conflict check establishes the property, and deploy, delete and
/// submit all preserve it under non-concurrent access.
pub proof fn lemma_at_most_one_instance_per_user(rs: Seq<RunningInstanceV>, user: int, i: int, j: int)
    requires
        spec_one_instance_per_user(rs),
        0 <= i < rs.len(),
        0 <= j < rs.len(),
        rs[i].user_id == user,
        rs[j].user_id == user,
    ensures
        i == j,
{
}

} // verus!
