use kube_ctf::cluster::{ClusterOutcomes, ClusterState, ResourceKind};
use kube_ctf::errors::KubeCTFError;
use kube_ctf::forms::{Container, Port, Protocols};
use kube_ctf::jwt::{Claims, UserRole};
use kube_ctf::kubernetes::KubernetesProvider;
use kube_ctf::lifecycle::{
    deploy_challenge, submit, ChallengeRecord, DeployOutcomes, KvIndex, RelStore, SubmitOutcomes, SubmitStatus,
};
use kube_ctf::models::ChallengeDeploy;
use kube_ctf::models::ChallengeDeployType;
use kube_ctf::providers::Provider;

fn web_container(name: &str) -> Container {
    Container {
        image: "nginx:latest".to_string(),
        name: name.to_string(),
        allow_external_network: false,
        envs: Vec::new(),
        ports: vec![
            Port { number: 80, protocol: Protocols::HTTP, domain: None },
            Port { number: 1337, protocol: Protocols::TCP, domain: None },
        ],
        resources: None,
    }
}

fn store_with_challenge(flag: &str) -> RelStore {
    let mut store = RelStore::new();
    store.challenges.push(ChallengeRecord {
        id: 7,
        flag: flag.to_string(),
        hidden: false,
        deploy: Some(ChallengeDeploy { kind: ChallengeDeployType::Dynamic, containers: vec![web_container("web")] }),
    });
    store
}

fn user_claims(user_id: i32) -> Claims {
    Claims::new(user_id, UserRole::User, 1_700_000_000)
}

fn happy_outcomes() -> DeployOutcomes {
    DeployOutcomes {
        cluster: ClusterOutcomes::none(),
        insert_fails: false,
        index_set_fails: false,
        commit_fails: false,
    }
}

fn deploy_once(
    store: &mut RelStore,
    index: &mut KvIndex,
    cluster: &mut ClusterState,
    user_id: i32,
) -> Result<kube_ctf::models::DeployChallengeResponse, KubeCTFError> {
    let provider = KubernetesProvider::new("tasks.cfrt.dev".to_string());
    let claims = user_claims(user_id);
    let candidates = vec!["abc1234567".to_string(), "xyz7654321".to_string()];
    deploy_challenge(
        &provider,
        store,
        index,
        cluster,
        &claims,
        7,
        &candidates,
        100,
        200,
        "tasks.cfrt.dev",
        &happy_outcomes(),
    )
}

#[test]
fn deploy_returns_port_prefixed_links() {
    let mut store = store_with_challenge("flag{x}");
    let mut index = KvIndex::new();
    let mut cluster = ClusterState::new();
    let response = deploy_once(&mut store, &mut index, &mut cluster, 1).unwrap();
    assert_eq!(response.id, "abc1234567");
    let urls: Vec<&str> = response.links.iter().map(|l| l.url.as_str()).collect();
    assert_eq!(urls, vec!["80-web-abc1234567.tasks.cfrt.dev", "1337-web-abc1234567.tasks.cfrt.dev"]);
    assert!(matches!(response.links[0].protocol, Protocols::HTTP));
    assert!(matches!(response.links[1].protocol, Protocols::TCP));
    assert_eq!(response.start_time, 100);
    assert_eq!(response.end_time, 200);
}

#[test]
fn second_deploy_of_same_user_conflicts_without_new_infrastructure() {
    let mut store = store_with_challenge("flag{x}");
    let mut index = KvIndex::new();
    let mut cluster = ClusterState::new();
    deploy_once(&mut store, &mut index, &mut cluster, 1).unwrap();
    let resources_before = cluster.resources.len();
    let second = deploy_once(&mut store, &mut index, &mut cluster, 1);
    assert!(matches!(second, Err(KubeCTFError::Conflict(_))));
    assert_eq!(cluster.resources.len(), resources_before);
    assert_eq!(store.running.len(), 1);
}

#[test]
fn submit_correct_flag_removes_instance_and_records_submission() {
    let mut store = store_with_challenge("flag{right}");
    let mut index = KvIndex::new();
    let mut cluster = ClusterState::new();
    let response = deploy_once(&mut store, &mut index, &mut cluster, 1).unwrap();
    let provider = KubernetesProvider::new("tasks.cfrt.dev".to_string());
    let claims = user_claims(1);
    let form = kube_ctf::forms::FlagSubmitRequest { instance_id: response.id.clone(), flag: "flag{right}".to_string() };
    let outcomes = SubmitOutcomes { submission_insert_fails: false, row_delete_fails: false, index_del_fails: false };
    let status = submit(&provider, &mut store, &mut index, &mut cluster, &claims, &form, 1_700_000_500, &outcomes)
        .unwrap();
    assert_eq!(status, SubmitStatus::Correct);
    assert!(store.running.is_empty());
    assert!(index.entries.is_empty());
    assert_eq!(store.submissions.len(), 1);
    assert!(store.submissions[0].is_correct);
    assert_eq!(store.submissions[0].answer, "flag{right}");
    assert!(cluster.resources.is_empty());
}

#[test]
fn submit_wrong_flag_keeps_instance_and_records_submission() {
    let mut store = store_with_challenge("flag{right}");
    let mut index = KvIndex::new();
    let mut cluster = ClusterState::new();
    let response = deploy_once(&mut store, &mut index, &mut cluster, 1).unwrap();
    let provider = KubernetesProvider::new("tasks.cfrt.dev".to_string());
    let claims = user_claims(1);
    let form = kube_ctf::forms::FlagSubmitRequest { instance_id: response.id.clone(), flag: "flag{wrong}".to_string() };
    let outcomes = SubmitOutcomes { submission_insert_fails: false, row_delete_fails: false, index_del_fails: false };
    let status = submit(&provider, &mut store, &mut index, &mut cluster, &claims, &form, 1_700_000_500, &outcomes)
        .unwrap();
    assert_eq!(status, SubmitStatus::Incorrect);
    assert_eq!(store.running.len(), 1);
    assert_eq!(index.entries.len(), 1);
    assert_eq!(store.submissions.len(), 1);
    assert!(!store.submissions[0].is_correct);
    assert_eq!(store.submissions[0].answer, "flag{wrong}");
}

#[test]
fn failed_service_creation_rolls_back_all_instance_resources() {
    let provider = KubernetesProvider::new("tasks.cfrt.dev".to_string());
    let mut cluster = ClusterState::new();
    let containers = vec![web_container("web")];
    let outcomes = ClusterOutcomes {
        failing: vec![(ResourceKind::Service, "web-abc1234567".to_string())],
    };
    let result = provider.create_instnace(&mut cluster, &containers, &"abc1234567".to_string(), &outcomes);
    assert!(matches!(result, Err(KubeCTFError::DeployError(_))));
    assert!(cluster.resources.iter().all(|r| r.instance_id != "abc1234567"));
    assert!(cluster.resources.is_empty());
}

#[test]
fn deploy_aborts_cleanly_when_provider_fails() {
    let mut store = store_with_challenge("flag{x}");
    let mut index = KvIndex::new();
    let mut cluster = ClusterState::new();
    let provider = KubernetesProvider::new("tasks.cfrt.dev".to_string());
    let claims = user_claims(1);
    let candidates = vec!["abc1234567".to_string()];
    let outcomes = DeployOutcomes {
        cluster: ClusterOutcomes { failing: vec![(ResourceKind::Service, "web-abc1234567".to_string())] },
        insert_fails: false,
        index_set_fails: false,
        commit_fails: false,
    };
    let result = deploy_challenge(
        &provider,
        &mut store,
        &mut index,
        &mut cluster,
        &claims,
        7,
        &candidates,
        100,
        200,
        "tasks.cfrt.dev",
        &outcomes,
    );
    assert!(matches!(result, Err(KubeCTFError::DeployError(_))));
    assert!(store.running.is_empty());
    assert!(index.entries.is_empty());
    assert!(cluster.resources.is_empty());
}
