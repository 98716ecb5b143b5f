use load_balancer::balancing_algorithms::{AlgorithmType, BalancingAlgorithm};
use load_balancer::control::{
    change_algorithm, is_control_path, kind_from_name, requested_algorithm, upstream_uri,
    ControlReply,
};
use load_balancer::dispatch::{select_worker, LoadBalancerError, Policy, Registry};
use load_balancer::metrics::Metrics;
use load_balancer::worker::{worker_route, WorkerRoute};
use load_balancer::Worker;

fn two_workers() -> Vec<Worker> {
    vec![
        Worker {
            host: "http://localhost:3000".to_string(),
        },
        Worker {
            host: "http://localhost:3001".to_string(),
        },
    ]
}

#[test]
fn test_load_balancer_new_with_valid_workers() {
    let workers = two_workers();
    let load_balancer = Registry::new(workers);
    assert!(load_balancer.is_ok());
}

#[test]
fn test_load_balancer_new_with_empty_workers() {
    let workers = vec![];
    let load_balancer = Registry::new(workers);
    assert!(load_balancer.is_err());
}

#[test]
fn empty_registry_error_is_reported() {
    let result = Registry::new(vec![]);
    let error = result.err().unwrap();
    assert_eq!(error, LoadBalancerError::EmptyRegistry);
    assert_eq!(error.message(), "Worker hosts list cannot be empty");
}

#[test]
fn test_algorithm_change_round_robin_to_least_connections() {
    let workers = two_workers();
    let registry = Registry::new(workers).expect("Failed to create load balancer");
    let mut policy = Policy::new(AlgorithmType::RoundRobin, registry.workers());
    let mut metrics = Metrics::new();
    assert_eq!(policy.get_type(), AlgorithmType::RoundRobin);

    let reply = change_algorithm(
        &mut policy,
        &mut metrics,
        &registry,
        Some("algo_type=least_connections"),
        0,
    );
    assert_eq!(reply, ControlReply::AlgorithmChanged);
    assert_eq!(policy.get_type(), AlgorithmType::LeastConnections);
}

#[test]
fn test_algorithm_change_least_connections_to_round_robin() {
    let workers = two_workers();
    let registry = Registry::new(workers).expect("Failed to create load balancer");
    let mut policy = Policy::new(AlgorithmType::LeastConnections, registry.workers());
    let mut metrics = Metrics::new();
    assert_eq!(policy.get_type(), AlgorithmType::LeastConnections);

    let reply = change_algorithm(
        &mut policy,
        &mut metrics,
        &registry,
        Some("algo_type=round_robin"),
        0,
    );
    assert_eq!(reply, ControlReply::AlgorithmChanged);
    assert_eq!(policy.get_type(), AlgorithmType::RoundRobin);
}

#[test]
fn test_debouncing_prevents_rapid_switches() {
    let mut metrics = Metrics::new();
    for _ in 0..5 {
        metrics.record_response_time(AlgorithmType::RoundRobin, 2500);
    }
    assert!(
        !metrics.should_switch(),
        "Should not switch immediately due to debouncing (less than 10 seconds)"
    );
}

#[test]
fn test_metrics_record_and_average_response_time() {
    let mut metrics = Metrics::new();
    metrics.record_response_time(AlgorithmType::RoundRobin, 100);
    metrics.record_response_time(AlgorithmType::RoundRobin, 200);
    metrics.record_response_time(AlgorithmType::RoundRobin, 300);

    let average = metrics.get_average_response_time_ms(AlgorithmType::RoundRobin);
    assert_eq!(average, 200, "Average of [100, 200, 300] should be 200");
}

#[test]
fn test_metrics_reset_clears_data() {
    let mut metrics = Metrics::new();
    metrics.record_response_time(AlgorithmType::RoundRobin, 100);
    metrics.record_response_time(AlgorithmType::RoundRobin, 200);
    let average_before_reset = metrics.get_average_response_time_ms(AlgorithmType::RoundRobin);
    assert_eq!(average_before_reset, 150);

    metrics.reset(AlgorithmType::RoundRobin);

    let average_after_reset = metrics.get_average_response_time_ms(AlgorithmType::RoundRobin);
    assert_eq!(average_after_reset, 0, "Average should be 0 after reset");
}

#[test]
fn test_automatic_algorithm_switch_on_high_latency() {
    let mut metrics = Metrics::new();
    for _ in 0..10 {
        metrics.record_response_time(AlgorithmType::RoundRobin, 2500);
    }
    let avg = metrics.get_average_response_time_ms(AlgorithmType::RoundRobin);
    assert!(avg > 2000, "Average response time should exceed 2000ms");
    assert!(metrics.get_average_response_time_ms(AlgorithmType::RoundRobin) > 2000);
    assert!(!metrics.should_switch());
}

#[test]
fn metrics_running_mean_truncates_and_shares_counter() {
    let mut metrics = Metrics::new();
    metrics.record_response_time(AlgorithmType::RoundRobin, 1);
    metrics.record_response_time(AlgorithmType::RoundRobin, 2);
    // (1 * 1 + 2) / 2 = 1 with integer division.
    assert_eq!(metrics.get_average_response_time_ms(AlgorithmType::RoundRobin), 1);
    // The shared counter is now 2: (0 * 2 + 90) / 3 = 30.
    metrics.record_response_time(AlgorithmType::LeastConnections, 90);
    assert_eq!(
        metrics.get_average_response_time_ms(AlgorithmType::LeastConnections),
        30
    );
    assert_eq!(metrics.get_average_response_time_ms(AlgorithmType::RoundRobin), 1);
}

#[test]
fn metrics_reset_keeps_other_kind_and_restarts_counter() {
    let mut metrics = Metrics::new();
    metrics.record_response_time(AlgorithmType::LeastConnections, 400);
    metrics.record_response_time(AlgorithmType::RoundRobin, 100);
    metrics.reset_at(AlgorithmType::RoundRobin, 500);
    assert_eq!(metrics.get_average_response_time_ms(AlgorithmType::RoundRobin), 0);
    assert_eq!(
        metrics.get_average_response_time_ms(AlgorithmType::LeastConnections),
        400
    );
    // The counter is 0 again, so the next sample replaces the mean.
    metrics.record_response_time(AlgorithmType::LeastConnections, 10);
    assert_eq!(
        metrics.get_average_response_time_ms(AlgorithmType::LeastConnections),
        10
    );
}

#[test]
fn metrics_debounce_window_boundaries() {
    let mut metrics = Metrics::new();
    assert!(!metrics.should_switch_at(0));
    assert!(!metrics.should_switch_at(9_999));
    assert!(metrics.should_switch_at(10_000));
    metrics.reset_at(AlgorithmType::RoundRobin, 20_000);
    assert!(!metrics.should_switch_at(29_999));
    assert!(metrics.should_switch_at(30_000));
    assert!(!metrics.should_switch_at(5_000));
}

#[test]
fn round_robin_requests_hit_workers_in_order() {
    let registry = Registry::new(two_workers()).unwrap();
    let mut policy = Policy::new(AlgorithmType::RoundRobin, registry.workers());
    let mut metrics = Metrics::new();
    let mut hosts = vec![];
    for _ in 0..3 {
        let (worker, kind) = select_worker(&mut policy, &mut metrics, &registry, 50);
        assert_eq!(kind, AlgorithmType::RoundRobin);
        let worker = worker.clone();
        policy.release(&worker);
        metrics.record_response_time(kind, 40);
        hosts.push(worker.host);
    }
    assert_eq!(
        hosts,
        vec![
            "http://localhost:3000",
            "http://localhost:3001",
            "http://localhost:3000"
        ]
    );
    assert_eq!(policy.get_type(), AlgorithmType::RoundRobin);
}

#[test]
fn concurrent_least_connections_requests_land_apart() {
    let registry = Registry::new(two_workers()).unwrap();
    let mut policy = Policy::new(AlgorithmType::LeastConnections, registry.workers());
    let mut metrics = Metrics::new();
    let (first, _) = select_worker(&mut policy, &mut metrics, &registry, 0);
    let first = first.clone();
    let (second, _) = select_worker(&mut policy, &mut metrics, &registry, 0);
    let second = second.clone();
    assert_ne!(first.host, second.host);
    policy.release(&first);
    policy.release(&second);
    match &policy {
        Policy::LeastConnections(table) => {
            assert_eq!(table.connections(&first.host), 0);
            assert_eq!(table.connections(&second.host), 0);
        }
        Policy::RoundRobin(_) => panic!("policy changed"),
    }
}

#[test]
fn high_latency_within_debounce_keeps_policy() {
    let registry = Registry::new(two_workers()).unwrap();
    let mut policy = Policy::new(AlgorithmType::RoundRobin, registry.workers());
    let mut metrics = Metrics::new();
    for _ in 0..10 {
        metrics.record_response_time(AlgorithmType::RoundRobin, 2500);
    }
    let (_, kind) = select_worker(&mut policy, &mut metrics, &registry, 100);
    assert_eq!(kind, AlgorithmType::RoundRobin);
    assert_eq!(policy.get_type(), AlgorithmType::RoundRobin);
    assert_eq!(metrics.get_average_response_time_ms(AlgorithmType::RoundRobin), 2500);
}

#[test]
fn high_latency_after_debounce_switches_policy() {
    let registry = Registry::new(two_workers()).unwrap();
    let mut policy = Policy::new(AlgorithmType::RoundRobin, registry.workers());
    let mut metrics = Metrics::new();
    for _ in 0..10 {
        metrics.record_response_time(AlgorithmType::RoundRobin, 2500);
    }
    let (worker, kind) = select_worker(&mut policy, &mut metrics, &registry, 11_000);
    assert_eq!(kind, AlgorithmType::LeastConnections);
    assert_eq!(worker.host, "http://localhost:3000");
    assert_eq!(policy.get_type(), AlgorithmType::LeastConnections);
    assert_eq!(metrics.get_average_response_time_ms(AlgorithmType::RoundRobin), 0);
    // A new debounce period started at the switch.
    assert!(!metrics.should_switch_at(20_999));
}

#[test]
fn latency_at_threshold_does_not_switch() {
    let registry = Registry::new(two_workers()).unwrap();
    let mut policy = Policy::new(AlgorithmType::LeastConnections, registry.workers());
    let mut metrics = Metrics::new();
    metrics.record_response_time(AlgorithmType::LeastConnections, 2000);
    let (_, kind) = select_worker(&mut policy, &mut metrics, &registry, 60_000);
    assert_eq!(kind, AlgorithmType::LeastConnections);
    metrics.record_response_time(AlgorithmType::LeastConnections, 2004);
    let (_, kind) = select_worker(&mut policy, &mut metrics, &registry, 60_000);
    assert_eq!(kind, AlgorithmType::RoundRobin);
}

#[test]
fn control_endpoint_switches_to_least_connections() {
    let registry = Registry::new(two_workers()).unwrap();
    let mut policy = Policy::new(AlgorithmType::RoundRobin, registry.workers());
    let mut metrics = Metrics::new();
    metrics.record_response_time(AlgorithmType::RoundRobin, 700);
    assert!(is_control_path("/anything/change_algorithm"));
    let reply = change_algorithm(
        &mut policy,
        &mut metrics,
        &registry,
        Some("algo_type=least_connections"),
        3_000,
    );
    assert_eq!(reply.body(), "Algorithm Changed!");
    assert_eq!(metrics.get_average_response_time_ms(AlgorithmType::RoundRobin), 0);
    assert!(!metrics.should_switch_at(12_999));
    let (_, kind) = select_worker(&mut policy, &mut metrics, &registry, 4_000);
    assert_eq!(kind, AlgorithmType::LeastConnections);
}

#[test]
fn control_endpoint_rejects_unknown_algorithm() {
    let registry = Registry::new(two_workers()).unwrap();
    let mut policy = Policy::new(AlgorithmType::RoundRobin, registry.workers());
    let mut metrics = Metrics::new();
    metrics.record_response_time(AlgorithmType::RoundRobin, 700);
    let reply = change_algorithm(
        &mut policy,
        &mut metrics,
        &registry,
        Some("algo_type=garbage"),
        3_000,
    );
    assert_eq!(reply, ControlReply::InvalidAlgorithmType);
    assert_eq!(reply.body(), "Invalid Algorithm Type");
    assert_eq!(policy.get_type(), AlgorithmType::RoundRobin);
    assert_eq!(metrics.get_average_response_time_ms(AlgorithmType::RoundRobin), 700);
}

#[test]
fn control_endpoint_without_query() {
    let registry = Registry::new(two_workers()).unwrap();
    let mut policy = Policy::new(AlgorithmType::RoundRobin, registry.workers());
    let mut metrics = Metrics::new();
    let reply = change_algorithm(&mut policy, &mut metrics, &registry, None, 0);
    assert_eq!(reply, ControlReply::NoQueryAttached);
    assert_eq!(reply.body(), "No Query Attached");
    assert_eq!(policy.get_type(), AlgorithmType::RoundRobin);
}

#[test]
fn control_query_is_form_decoded() {
    let registry = Registry::new(two_workers()).unwrap();
    let mut policy = Policy::new(AlgorithmType::RoundRobin, registry.workers());
    let mut metrics = Metrics::new();
    let reply = change_algorithm(
        &mut policy,
        &mut metrics,
        &registry,
        Some("verbose=1&algo%5Ftype=least%5Fconnections"),
        0,
    );
    assert_eq!(reply, ControlReply::AlgorithmChanged);
    assert_eq!(policy.get_type(), AlgorithmType::LeastConnections);
}

#[test]
fn control_query_with_repeated_parameter_is_invalid() {
    let registry = Registry::new(two_workers()).unwrap();
    let mut policy = Policy::new(AlgorithmType::RoundRobin, registry.workers());
    let mut metrics = Metrics::new();
    let reply = change_algorithm(
        &mut policy,
        &mut metrics,
        &registry,
        Some("algo_type=round_robin&algo_type=least_connections"),
        0,
    );
    assert_eq!(reply, ControlReply::InvalidAlgorithmType);
    let reply = change_algorithm(&mut policy, &mut metrics, &registry, Some("other=1"), 0);
    assert_eq!(reply, ControlReply::InvalidAlgorithmType);
}

#[test]
fn requested_algorithm_reads_decoded_fields() {
    let pair = |k: &str, v: &str| (k.to_string(), v.to_string());
    assert_eq!(
        requested_algorithm(&vec![pair("x", "1"), pair("algo_type", "round_robin")]),
        Some(AlgorithmType::RoundRobin)
    );
    assert_eq!(
        requested_algorithm(&vec![pair("algo_type", "least_connections")]),
        Some(AlgorithmType::LeastConnections)
    );
    assert_eq!(requested_algorithm(&vec![]), None);
    assert_eq!(
        requested_algorithm(&vec![
            pair("algo_type", "round_robin"),
            pair("algo_type", "round_robin")
        ]),
        None
    );
    assert_eq!(requested_algorithm(&vec![pair("algo_type", "RoundRobin")]), None);
    assert_eq!(kind_from_name("least_connections"), Some(AlgorithmType::LeastConnections));
    assert_eq!(kind_from_name(""), None);
}

#[test]
fn control_path_detection() {
    assert!(is_control_path("/change_algorithm"));
    assert!(is_control_path("change_algorithm"));
    assert!(!is_control_path("/change_algorithm/"));
    assert!(!is_control_path("/work"));
    assert!(!is_control_path(""));
}

#[test]
fn upstream_uri_joins_host_and_path() {
    let worker = Worker {
        host: "http://localhost:3001".to_string(),
    };
    assert_eq!(
        upstream_uri(&worker, Some("/work?x=1")),
        "http://localhost:3001/work?x=1"
    );
    assert_eq!(upstream_uri(&worker, None), "http://localhost:3001");
}

#[test]
fn worker_routes() {
    assert_eq!(worker_route(true, "/health"), WorkerRoute::Health);
    assert_eq!(worker_route(true, "/work"), WorkerRoute::Work);
    assert_eq!(worker_route(true, "/heavy_work"), WorkerRoute::HeavyWork);
    assert_eq!(worker_route(false, "/health"), WorkerRoute::Unknown);
    assert_eq!(worker_route(true, "/other"), WorkerRoute::Unknown);
    assert_eq!(WorkerRoute::Health.body(), Some("Health Status - OK\r\n"));
    assert_eq!(WorkerRoute::Unknown.body(), None);
    assert_eq!(WorkerRoute::Unknown.status_code(), 400);
    assert_eq!(WorkerRoute::Work.status_code(), 200);
    assert_eq!(WorkerRoute::Work.delay_secs(), 1);
    assert_eq!(WorkerRoute::HeavyWork.delay_secs(), 10);
    assert_eq!(WorkerRoute::Health.delay_secs(), 0);
}

#[test]
fn metrics_average_absent_until_recorded_and_after_reset() {
    let mut metrics = Metrics::new();
    assert_eq!(metrics.average_response_time_ms(AlgorithmType::RoundRobin), None);
    metrics.record_response_time(AlgorithmType::RoundRobin, 120);
    assert_eq!(
        metrics.average_response_time_ms(AlgorithmType::RoundRobin),
        Some(120)
    );
    metrics.reset(AlgorithmType::RoundRobin);
    assert_eq!(metrics.average_response_time_ms(AlgorithmType::RoundRobin), None);
    assert!(!metrics.should_switch());
}
