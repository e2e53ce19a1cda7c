use kube_ctf::cluster::{ClusterOutcomes, ClusterState};
use kube_ctf::errors::KubeCTFError;
use kube_ctf::forms::{Container, FlagSubmitRequest, Port, Protocols};
use kube_ctf::jwt::{Claims, UserRole};
use kube_ctf::kubernetes::KubernetesProvider;
use kube_ctf::lifecycle::{
    delete_challenge, deploy_challenge, submit, ChallengeRecord, DeleteOutcomes, DeployOutcomes, KvIndex, RelStore,
    SubmitOutcomes,
};
use kube_ctf::models::{ChallengeDeploy, ChallengeDeployType};

fn base_store(hidden: bool) -> RelStore {
    let mut store = RelStore::new();
    let web = Container {
        image: "img".to_string(),
        name: "web".to_string(),
        allow_external_network: false,
        envs: Vec::new(),
        ports: vec![Port { number: 80, protocol: Protocols::HTTP, domain: None }],
        resources: None,
    };
    store.challenges.push(ChallengeRecord {
        id: 1,
        flag: "flag{a}".to_string(),
        hidden,
        deploy: Some(ChallengeDeploy { kind: ChallengeDeployType::Dynamic, containers: vec![web] }),
    });
    store.challenges.push(ChallengeRecord { id: 2, flag: "flag{b}".to_string(), hidden: false, deploy: None });
    store
}

fn happy() -> DeployOutcomes {
    DeployOutcomes {
        cluster: ClusterOutcomes::none(),
        insert_fails: false,
        index_set_fails: false,
        commit_fails: false,
    }
}

fn run_deploy(
    store: &mut RelStore,
    index: &mut KvIndex,
    cluster: &mut ClusterState,
    claims: &Claims,
    challenge_id: i32,
    outcomes: &DeployOutcomes,
) -> Result<kube_ctf::models::DeployChallengeResponse, KubeCTFError> {
    let provider = KubernetesProvider::new("tasks.cfrt.dev".to_string());
    let candidates = vec!["abc1234567".to_string(), "def7654321".to_string()];
    deploy_challenge(
        &provider, store, index, cluster, claims, challenge_id, &candidates, 100, 200, "tasks.cfrt.dev", outcomes,
    )
}

#[test]
fn deploy_unknown_challenge_is_not_found() {
    let mut store = base_store(false);
    let mut index = KvIndex::new();
    let mut cluster = ClusterState::new();
    let claims = Claims::new(1, UserRole::User, 0);
    let r = run_deploy(&mut store, &mut index, &mut cluster, &claims, 99, &happy());
    assert!(matches!(r, Err(KubeCTFError::NotFound(_))));
    assert!(store.running.is_empty());
}

#[test]
fn hidden_challenge_is_not_found_for_users_but_deploys_for_admins() {
    let mut store = base_store(true);
    let mut index = KvIndex::new();
    let mut cluster = ClusterState::new();
    let user = Claims::new(1, UserRole::User, 0);
    let r = run_deploy(&mut store, &mut index, &mut cluster, &user, 1, &happy());
    assert!(matches!(r, Err(KubeCTFError::NotFound(_))));

    let admin = Claims::new(2, UserRole::Admin, 0);
    let r = run_deploy(&mut store, &mut index, &mut cluster, &admin, 1, &happy());
    assert!(r.is_ok());
}

#[test]
fn deploy_without_deploy_spec_is_an_internal_error() {
    let mut store = base_store(false);
    let mut index = KvIndex::new();
    let mut cluster = ClusterState::new();
    let claims = Claims::new(1, UserRole::User, 0);
    let r = run_deploy(&mut store, &mut index, &mut cluster, &claims, 2, &happy());
    match r {
        Err(KubeCTFError::ShitHappened(m)) => assert_eq!(m, "No deploy configuration found for challenge"),
        other => panic!("unexpected result: {other:?}"),
    }
}

#[test]
fn mint_skips_candidates_the_index_knows() {
    let mut store = base_store(false);
    let mut index = KvIndex::new();
    index.entries.push(("abc1234567".to_string(), 42));
    let mut cluster = ClusterState::new();
    let claims = Claims::new(1, UserRole::User, 0);
    let r = run_deploy(&mut store, &mut index, &mut cluster, &claims, 1, &happy()).unwrap();
    assert_eq!(r.id, "def7654321");
}

#[test]
fn insert_failure_rolls_back_infrastructure_and_stores() {
    let mut store = base_store(false);
    let mut index = KvIndex::new();
    let mut cluster = ClusterState::new();
    let claims = Claims::new(1, UserRole::User, 0);
    let outcomes = DeployOutcomes {
        cluster: ClusterOutcomes::none(),
        insert_fails: true,
        index_set_fails: false,
        commit_fails: false,
    };
    let r = run_deploy(&mut store, &mut index, &mut cluster, &claims, 1, &outcomes);
    assert!(matches!(r, Err(KubeCTFError::DatabaseError(_))));
    assert!(store.running.is_empty());
    assert!(index.entries.is_empty());
    assert!(cluster.resources.is_empty());
}

#[test]
fn index_failure_rolls_back_and_reports_the_index_store() {
    let mut store = base_store(false);
    let mut index = KvIndex::new();
    let mut cluster = ClusterState::new();
    let claims = Claims::new(1, UserRole::User, 0);
    let outcomes = DeployOutcomes {
        cluster: ClusterOutcomes::none(),
        insert_fails: false,
        index_set_fails: true,
        commit_fails: false,
    };
    let r = run_deploy(&mut store, &mut index, &mut cluster, &claims, 1, &outcomes);
    assert!(matches!(r, Err(KubeCTFError::RedisError(_))));
    assert!(store.running.is_empty());
    assert!(index.entries.is_empty());
    assert!(cluster.resources.is_empty());
}

#[test]
fn commit_failure_leaves_the_acknowledged_index_orphan() {
    let mut store = base_store(false);
    let mut index = KvIndex::new();
    let mut cluster = ClusterState::new();
    let claims = Claims::new(1, UserRole::User, 0);
    let outcomes = DeployOutcomes {
        cluster: ClusterOutcomes::none(),
        insert_fails: false,
        index_set_fails: false,
        commit_fails: true,
    };
    let r = run_deploy(&mut store, &mut index, &mut cluster, &claims, 1, &outcomes);
    assert!(matches!(r, Err(KubeCTFError::DatabaseError(_))));
    // the row is not persisted, the infrastructure is compensated, but the
    // index entry written before the failed commit stays behind
    assert!(store.running.is_empty());
    assert!(cluster.resources.is_empty());
    assert_eq!(index.entries.len(), 1);
    assert_eq!(index.entries[0].0, "abc1234567");
}

#[test]
fn delete_requires_an_existing_instance_and_its_owner() {
    let mut store = base_store(false);
    let mut index = KvIndex::new();
    let mut cluster = ClusterState::new();
    let owner = Claims::new(1, UserRole::User, 0);
    let provider = KubernetesProvider::new("tasks.cfrt.dev".to_string());
    let response = run_deploy(&mut store, &mut index, &mut cluster, &owner, 1, &happy()).unwrap();
    let outcomes = DeleteOutcomes { row_delete_fails: false, index_del_fails: false, commit_fails: false };

    let absent = delete_challenge(
        &provider, &mut store, &mut index, &mut cluster, &owner, &"zzz0000000".to_string(), &outcomes,
    );
    assert!(matches!(absent, Err(KubeCTFError::NotFound(_))));

    let stranger = Claims::new(7, UserRole::User, 0);
    let forbidden = delete_challenge(
        &provider, &mut store, &mut index, &mut cluster, &stranger, &response.id, &outcomes,
    );
    assert!(matches!(forbidden, Err(KubeCTFError::Forbidden(_))));
    assert_eq!(store.running.len(), 1);

    delete_challenge(&provider, &mut store, &mut index, &mut cluster, &owner, &response.id, &outcomes).unwrap();
    assert!(store.running.is_empty());
    assert!(index.entries.is_empty());
    assert!(cluster.resources.is_empty());
}

#[test]
fn deploy_after_delete_succeeds_again() {
    let mut store = base_store(false);
    let mut index = KvIndex::new();
    let mut cluster = ClusterState::new();
    let owner = Claims::new(1, UserRole::User, 0);
    let provider = KubernetesProvider::new("tasks.cfrt.dev".to_string());
    let first = run_deploy(&mut store, &mut index, &mut cluster, &owner, 1, &happy()).unwrap();
    let outcomes = DeleteOutcomes { row_delete_fails: false, index_del_fails: false, commit_fails: false };
    delete_challenge(&provider, &mut store, &mut index, &mut cluster, &owner, &first.id, &outcomes).unwrap();
    let second = run_deploy(&mut store, &mut index, &mut cluster, &owner, 1, &happy());
    assert!(second.is_ok());
    assert_eq!(store.running.len(), 1);
}

#[test]
fn submission_insert_failure_leaves_everything_untouched() {
    let mut store = base_store(false);
    let mut index = KvIndex::new();
    let mut cluster = ClusterState::new();
    let owner = Claims::new(1, UserRole::User, 0);
    let provider = KubernetesProvider::new("tasks.cfrt.dev".to_string());
    let response = run_deploy(&mut store, &mut index, &mut cluster, &owner, 1, &happy()).unwrap();
    let form = FlagSubmitRequest { instance_id: response.id.clone(), flag: "flag{a}".to_string() };
    let outcomes = SubmitOutcomes { submission_insert_fails: true, row_delete_fails: false, index_del_fails: false };
    let r = submit(&provider, &mut store, &mut index, &mut cluster, &owner, &form, 0, &outcomes);
    assert!(matches!(r, Err(KubeCTFError::DatabaseError(_))));
    assert_eq!(store.running.len(), 1);
    assert!(store.submissions.is_empty());
    assert_eq!(index.entries.len(), 1);
}

#[test]
fn delete_succeeds_even_when_the_index_removal_fails() {
    let mut store = base_store(false);
    let mut index = KvIndex::new();
    let mut cluster = ClusterState::new();
    let owner = Claims::new(1, UserRole::User, 0);
    let provider = KubernetesProvider::new("tasks.cfrt.dev".to_string());
    let response = run_deploy(&mut store, &mut index, &mut cluster, &owner, 1, &happy()).unwrap();
    let outcomes = DeleteOutcomes { row_delete_fails: false, index_del_fails: true, commit_fails: false };
    delete_challenge(&provider, &mut store, &mut index, &mut cluster, &owner, &response.id, &outcomes).unwrap();
    // the row is gone; the best-effort index removal failed and is ignored
    assert!(store.running.is_empty());
    assert_eq!(index.entries.len(), 1);
}

#[test]
fn submit_for_someone_elses_instance_is_not_found() {
    let mut store = base_store(false);
    let mut index = KvIndex::new();
    let mut cluster = ClusterState::new();
    let owner = Claims::new(1, UserRole::User, 0);
    let provider = KubernetesProvider::new("tasks.cfrt.dev".to_string());
    let response = run_deploy(&mut store, &mut index, &mut cluster, &owner, 1, &happy()).unwrap();
    let stranger = Claims::new(7, UserRole::User, 0);
    let form = FlagSubmitRequest { instance_id: response.id.clone(), flag: "flag{a}".to_string() };
    let outcomes = SubmitOutcomes { submission_insert_fails: false, row_delete_fails: false, index_del_fails: false };
    let r = submit(&provider, &mut store, &mut index, &mut cluster, &stranger, &form, 0, &outcomes);
    assert!(matches!(r, Err(KubeCTFError::NotFound(_))));
    assert_eq!(store.running.len(), 1);
    assert!(store.submissions.is_empty());
}
