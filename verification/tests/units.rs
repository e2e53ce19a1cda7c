use kube_ctf::cluster::{ClusterOutcomes, ClusterState, EgressRule, IngressRule, ResourceBody, ResourceKind};
use kube_ctf::errors::KubeCTFError;
use kube_ctf::forms::{validate_container_name, validate_domain, validate_lowercase, validate_ports, Container, Env, Port, Protocols};
use kube_ctf::jwt::{claims_token_from_header, Argon, AuthHeader, Claims, UserRole};
use kube_ctf::kubernetes::KubernetesProvider;
use kube_ctf::managements::{ChallengeValue, ChallengeValueDecayFunction, ChallengeValueDecayFunctionType, ChallengeValueType};
use kube_ctf::providers::{DockerProvider, Provider};
use kube_ctf::utils::{derive_name, generate_container_links, generate_id, i32_to_string, not_found, parse_route_name};

fn container(name: &str, ports: Vec<Port>) -> Container {
    Container {
        image: "img".to_string(),
        name: name.to_string(),
        allow_external_network: false,
        envs: Vec::new(),
        ports,
        resources: None,
    }
}

#[test]
fn derive_name_joins_nonempty_components() {
    assert_eq!(derive_name("80", "web", "abc1234567"), "80-web-abc1234567");
    assert_eq!(derive_name("80", "", "abc1234567"), "80-abc1234567");
    assert_eq!(derive_name("", "web", "abc1234567"), "web-abc1234567");
    assert_eq!(derive_name("", "", "abc1234567"), "abc1234567");
}

#[test]
fn i32_to_string_renders_decimal() {
    assert_eq!(i32_to_string(0), "0");
    assert_eq!(i32_to_string(65535), "65535");
    assert_eq!(i32_to_string(-42), "-42");
    assert_eq!(i32_to_string(i32::MIN), "-2147483648");
}

#[test]
fn generate_id_has_the_documented_shape() {
    for _ in 0..50 {
        let id = generate_id(10);
        assert_eq!(id.len(), 10);
        let first = id.chars().next().unwrap();
        assert!(first.is_ascii_lowercase());
        assert!(id.chars().all(|c| c.is_ascii_lowercase() || c.is_ascii_digit()));
    }
}

#[test]
fn links_use_domain_override_when_present() {
    let containers = vec![container(
        "db",
        vec![Port { number: 5432, protocol: Protocols::TCP, domain: Some("postgres".to_string()) }],
    )];
    let links = generate_container_links("tasks.cfrt.dev", "abc1234567", &containers);
    assert_eq!(links.len(), 1);
    assert_eq!(links[0].url, "postgres-db-abc1234567.tasks.cfrt.dev");
}

#[test]
fn links_fall_back_to_port_number_for_empty_override() {
    let containers = vec![container(
        "db",
        vec![Port { number: 5432, protocol: Protocols::TCP, domain: Some(String::new()) }],
    )];
    let links = generate_container_links("tasks.cfrt.dev", "abc1234567", &containers);
    assert_eq!(links[0].url, "5432-db-abc1234567.tasks.cfrt.dev");
}

#[test]
fn parse_route_name_round_trips_generated_names() {
    let name = derive_name("80", "web", "abc1234567");
    let (d, c, i) = parse_route_name(&name).unwrap();
    assert_eq!((d.as_str(), c.as_str(), i.as_str()), ("80", "web", "abc1234567"));

    let nameless = derive_name("1337", "", "abc1234567");
    let (d, c, i) = parse_route_name(&nameless).unwrap();
    assert_eq!((d.as_str(), c.as_str(), i.as_str()), ("1337", "", "abc1234567"));

    assert!(parse_route_name("nohyphen").is_none());
}

#[test]
fn validate_domain_enforces_the_length_limit() {
    let containers = vec![container("web", vec![Port { number: 80, protocol: Protocols::HTTP, domain: None }])];
    assert!(validate_domain(&containers, "abc1234567", 63).is_ok());
    // "80-web-abc1234567" has 17 characters
    assert!(validate_domain(&containers, "abc1234567", 17).is_ok());
    let rejected = validate_domain(&containers, "abc1234567", 16);
    match rejected {
        Err(KubeCTFError::ShitHappened(m)) => assert_eq!(m, "Subdomain is too long"),
        other => panic!("unexpected result: {other:?}"),
    }
}

#[test]
fn container_name_and_lowercase_validation() {
    assert!(validate_container_name(""));
    assert!(validate_container_name("web1"));
    assert!(!validate_container_name("1web"));
    // only the first character escapes the lowercase check
    assert!(validate_container_name("Zab"));
    assert!(validate_container_name("Web"));
    assert!(!validate_container_name("wEb"));
    assert!(!validate_container_name("web-1"));
    assert!(validate_lowercase("abc123"));
    assert!(!validate_lowercase("abc-123"));
}

#[test]
fn ports_collide_only_on_equal_declared_overrides() {
    // two ports without overrides take distinct port-number fallbacks
    let no_overrides = vec![
        Port { number: 80, protocol: Protocols::HTTP, domain: None },
        Port { number: 1337, protocol: Protocols::TCP, domain: None },
    ];
    assert!(validate_ports(&no_overrides));
    // empty overrides fall back to the port number too
    let empty_overrides = vec![
        Port { number: 80, protocol: Protocols::HTTP, domain: Some(String::new()) },
        Port { number: 81, protocol: Protocols::HTTP, domain: Some(String::new()) },
    ];
    assert!(validate_ports(&empty_overrides));
    let mixed = vec![
        Port { number: 80, protocol: Protocols::HTTP, domain: None },
        Port { number: 81, protocol: Protocols::HTTP, domain: Some("x".to_string()) },
    ];
    assert!(validate_ports(&mixed));
    // two ports declaring the same override do collide
    let colliding = vec![
        Port { number: 80, protocol: Protocols::HTTP, domain: Some("x".to_string()) },
        Port { number: 81, protocol: Protocols::HTTP, domain: Some("x".to_string()) },
    ];
    assert!(!validate_ports(&colliding));
}

#[test]
fn challenge_value_validation_rules() {
    let good_static = ChallengeValue { kind: ChallengeValueType::Static, initial_value: 500, decay_function: None };
    assert!(good_static.validate());

    let negative = ChallengeValue { kind: ChallengeValueType::Static, initial_value: -1, decay_function: None };
    assert!(!negative.validate());

    let dynamic_without_decay =
        ChallengeValue { kind: ChallengeValueType::Dynamic, initial_value: 500, decay_function: None };
    assert!(!dynamic_without_decay.validate());

    let decay = ChallengeValueDecayFunction {
        kind: ChallengeValueDecayFunctionType::Linear,
        decay: 10,
        minimum_value: 100,
    };
    let good_dynamic =
        ChallengeValue { kind: ChallengeValueType::Dynamic, initial_value: 500, decay_function: Some(decay) };
    assert!(good_dynamic.validate());

    let inverted = ChallengeValue { kind: ChallengeValueType::Dynamic, initial_value: 50, decay_function: Some(decay) };
    assert!(!inverted.validate());
}

#[test]
fn create_instance_is_idempotent() {
    let provider = KubernetesProvider::new("tasks.cfrt.dev".to_string());
    let mut cluster = ClusterState::new();
    let containers = vec![container("web", vec![Port { number: 80, protocol: Protocols::HTTP, domain: None }])];
    let id = "abc1234567".to_string();
    provider.create_instnace(&mut cluster, &containers, &id, &ClusterOutcomes::none()).unwrap();
    let after_first: Vec<String> = cluster.resources.iter().map(|r| r.name.clone()).collect();
    // the second run is answered entirely with conflicts, even under a
    // target behavior that would fail every fresh creation
    let failing_everything = ClusterOutcomes {
        failing: vec![
            (ResourceKind::Deployment, "web-abc1234567".to_string()),
            (ResourceKind::Service, "web-abc1234567".to_string()),
            (ResourceKind::NetworkPolicy, "web-abc1234567".to_string()),
            (ResourceKind::IngressRoute, "80-web-abc1234567".to_string()),
        ],
    };
    provider.create_instnace(&mut cluster, &containers, &id, &failing_everything).unwrap();
    let after_second: Vec<String> = cluster.resources.iter().map(|r| r.name.clone()).collect();
    assert_eq!(after_first, after_second);
}

#[test]
fn delete_instance_on_absent_id_is_a_noop() {
    let provider = KubernetesProvider::new("tasks.cfrt.dev".to_string());
    let mut cluster = ClusterState::new();
    let containers = vec![container("web", vec![Port { number: 80, protocol: Protocols::HTTP, domain: None }])];
    provider.create_instnace(&mut cluster, &containers, &"abc1234567".to_string(), &ClusterOutcomes::none()).unwrap();
    let before = cluster.resources.len();
    provider.delete_instnace(&mut cluster, &"zzz0000000".to_string()).unwrap();
    assert_eq!(cluster.resources.len(), before);
}

#[test]
fn created_resources_carry_the_expected_shapes() {
    let provider = KubernetesProvider::new("tasks.cfrt.dev".to_string());
    let mut cluster = ClusterState::new();
    let containers = vec![Container {
        image: "img".to_string(),
        name: "web".to_string(),
        allow_external_network: true,
        envs: vec![Env { name: "FLAG".to_string(), value: "flag{x}".to_string() }],
        ports: vec![
            Port { number: 80, protocol: Protocols::HTTP, domain: None },
            Port { number: 1337, protocol: Protocols::TCP, domain: None },
        ],
        resources: None,
    }];
    provider.create_instnace(&mut cluster, &containers, &"abc1234567".to_string(), &ClusterOutcomes::none()).unwrap();
    // workload, service, network policy, and one route per port
    assert_eq!(cluster.resources.len(), 5);
    let netpol = cluster
        .resources
        .iter()
        .find(|r| matches!(r.body, ResourceBody::NetworkPolicy { .. }))
        .unwrap();
    match &netpol.body {
        ResourceBody::NetworkPolicy { egress, ingress } => {
            assert_eq!(
                egress,
                &vec![EgressRule::ClusterDns, EgressRule::ExternalNetwork, EgressRule::SameInstance]
            );
            assert_eq!(ingress, &vec![IngressRule::IngressController, IngressRule::SameInstance]);
        }
        _ => unreachable!(),
    }
    let http_route = cluster
        .resources
        .iter()
        .find(|r| matches!(r.body, ResourceBody::IngressRoute { .. }))
        .unwrap();
    match &http_route.body {
        ResourceBody::IngressRoute { match_rule, service_name, tls_secret, port } => {
            assert_eq!(match_rule, "Host(`80-web-abc1234567.tasks.cfrt.dev`)");
            assert_eq!(service_name, "web-abc1234567");
            assert_eq!(tls_secret, "wildcard-cert");
            assert_eq!(*port, 80);
        }
        _ => unreachable!(),
    }
    let tcp_route = cluster
        .resources
        .iter()
        .find(|r| matches!(r.body, ResourceBody::IngressRouteTCP { .. }))
        .unwrap();
    match &tcp_route.body {
        ResourceBody::IngressRouteTCP { match_rule, .. } => {
            assert_eq!(match_rule, "HostSNI(`1337-web-abc1234567.tasks.cfrt.dev`)");
        }
        _ => unreachable!(),
    }
}

#[test]
fn docker_provider_is_a_stub() {
    let provider = DockerProvider::new();
    let mut cluster = ClusterState::new();
    let containers = vec![container("web", Vec::new())];
    let created = provider.create_instnace(&mut cluster, &containers, &"abc1234567".to_string(), &ClusterOutcomes::none());
    assert!(matches!(created, Err(KubeCTFError::DeployError(_))));
    assert!(cluster.resources.is_empty());
}

#[test]
fn claims_carry_issue_and_expiry_times() {
    let claims = Claims::new(9, UserRole::Admin, 1_700_000_000);
    assert_eq!(claims.user_id, 9);
    assert_eq!(claims.iat, 1_700_000_000);
    assert_eq!(claims.exp, 1_700_000_000 + 24 * 3600);
}

#[test]
fn bearer_token_extraction() {
    let token = claims_token_from_header(&AuthHeader::Value("Bearer abc.def.ghi".to_string())).unwrap();
    assert_eq!(token, "abc.def.ghi");

    let missing = claims_token_from_header(&AuthHeader::Missing);
    assert!(matches!(missing, Err(KubeCTFError::Forbidden(_))));

    let malformed = claims_token_from_header(&AuthHeader::Value("justonetoken".to_string()));
    assert!(matches!(malformed, Err(KubeCTFError::ShitHappened(_))));

    let undecodable = claims_token_from_header(&AuthHeader::Undecodable);
    assert!(matches!(undecodable, Err(KubeCTFError::ShitHappened(_))));
}

#[test]
fn bearer_token_takes_the_second_space_separated_part() {
    let token = claims_token_from_header(&AuthHeader::Value("Bearer abc def".to_string())).unwrap();
    assert_eq!(token, "abc");
    let empty = claims_token_from_header(&AuthHeader::Value("Bearer  def".to_string())).unwrap();
    assert_eq!(empty, "");
}

#[test]
fn password_hash_verifies_and_rejects() {
    let hash = Argon::hash_password(b"hunter2").unwrap();
    assert_ne!(hash, "hunter2");
    assert!(hash.starts_with("$argon2"));
    assert!(Argon::verify(b"hunter2", &hash).unwrap());
    assert!(!Argon::verify(b"hunter3", &hash).unwrap());
    assert!(Argon::verify(b"hunter2", "not-an-encoded-hash").is_err());
}

#[test]
fn not_found_names_the_challenge_lookup() {
    let e = not_found();
    assert!(matches!(e, KubeCTFError::NotFound(_)));
    assert_eq!(e.message(), "No challenge was found with that id.");
}
