use phira_mp_plugin::error::Error;
use phira_mp_plugin::sandbox::{
    ResourceLimits, ResourceUsage, Sandbox, SandboxManager, SecurityPolicy,
};
use std::time::Duration;

fn small_limits() -> ResourceLimits {
    ResourceLimits {
        max_memory: 1000,
        max_cpu_time_ms: 100,
        max_execution_time_ms: 1000,
        max_open_files: 10,
        max_network_connections: 5,
        max_allocation_size: 100,
        max_total_allocation: 500,
        max_stack_size: 1000,
    }
}

fn violation_text(r: Result<(), Error>) -> String {
    match r {
        Err(Error::SecurityViolation(m)) => m,
        other => panic!("expected a security violation, got {:?}", other),
    }
}

#[test]
fn test_resource_limits() {
    let limits = small_limits();

    let mut usage = ResourceUsage::new();
    usage.record_allocation(600); // Should exceed total allocation limit

    assert!(usage.check_limits(&limits).is_err());
}

#[test]
fn test_sandbox_operation() {
    let mut sandbox = Sandbox::new(
        "test_plugin".to_string(),
        ResourceLimits::default(),
        SecurityPolicy::default(),
    );

    assert!(sandbox.start_operation().is_ok());
    assert!(sandbox.start_operation().is_err()); // Already active

    assert!(sandbox.end_operation().is_ok());
    assert!(sandbox.end_operation().is_err()); // Not active
}

#[test]
fn test_security_policy() {
    let policy = SecurityPolicy {
        allow_filesystem: true,
        allowed_filesystem_paths: vec!["/tmp".to_string(), "/home".to_string()],
        ..SecurityPolicy::default()
    };

    assert!(policy.is_filesystem_path_allowed("/tmp/file.txt"));
    assert!(policy.is_filesystem_path_allowed("/home/user/doc.txt"));
    assert!(!policy.is_filesystem_path_allowed("/etc/passwd"));

    let policy = SecurityPolicy::restrictive();
    assert!(!policy.is_filesystem_path_allowed("/tmp/file.txt"));
}

#[test]
fn check_limits_reports_total_allocation_with_exact_message() {
    let limits = small_limits();
    let mut usage = ResourceUsage::new();
    usage.record_allocation(600);
    assert_eq!(usage.memory_used, 600);
    assert_eq!(usage.total_allocated, 600);
    assert_eq!(usage.allocation_count, 1);
    assert_eq!(usage.peak_memory, 600);
    assert_eq!(
        violation_text(usage.check_limits(&limits)),
        "Total allocation limit exceeded: 600 > 500 bytes"
    );
}

#[test]
fn check_limits_reports_the_first_exceeded_limit() {
    let limits = small_limits();
    let mut usage = ResourceUsage::new();
    usage.memory_used = 1001;
    usage.cpu_time_used_ms = 101;
    assert_eq!(
        violation_text(usage.check_limits(&limits)),
        "Memory limit exceeded: 1001 > 1000 bytes"
    );
    usage.memory_used = 1000;
    assert_eq!(
        violation_text(usage.check_limits(&limits)),
        "CPU time limit exceeded: 101 > 100 ms"
    );
    usage.cpu_time_used_ms = 100;
    usage.execution_time_used_ms = 1001;
    assert_eq!(
        violation_text(usage.check_limits(&limits)),
        "Execution time limit exceeded: 1001 > 1000 ms"
    );
    usage.execution_time_used_ms = 0;
    usage.open_files = 11;
    assert_eq!(
        violation_text(usage.check_limits(&limits)),
        "Open files limit exceeded: 11 > 10"
    );
    usage.open_files = 10;
    usage.network_connections = 6;
    assert_eq!(
        violation_text(usage.check_limits(&limits)),
        "Network connections limit exceeded: 6 > 5"
    );
    usage.network_connections = 5;
    assert!(usage.check_limits(&limits).is_ok());
}

#[test]
fn check_limits_does_not_change_the_usage() {
    let limits = small_limits();
    let mut usage = ResourceUsage::new();
    usage.record_allocation(600);
    let _ = usage.check_limits(&limits);
    let _ = usage.check_limits(&limits);
    assert_eq!(usage.total_allocated, 600);
    assert_eq!(usage.security_violations, 0);
}

#[test]
fn deallocation_stops_at_zero_and_keeps_the_peak() {
    let mut usage = ResourceUsage::new();
    usage.record_allocation(100);
    usage.record_allocation(50);
    usage.record_deallocation(120);
    assert_eq!(usage.memory_used, 30);
    assert_eq!(usage.peak_memory, 150);
    assert_eq!(usage.total_allocated, 150);
    usage.record_deallocation(31);
    assert_eq!(usage.memory_used, 0);
}

#[test]
fn time_is_accumulated_in_whole_milliseconds() {
    let mut usage = ResourceUsage::new();
    usage.record_cpu_time(Duration::from_micros(2500));
    usage.record_cpu_time(Duration::from_millis(40));
    usage.record_execution_time(Duration::from_secs(2));
    assert_eq!(usage.cpu_time_used_ms, 42);
    assert_eq!(usage.execution_time_used_ms, 2000);
}

#[test]
fn reset_keeps_the_violations() {
    let mut usage = ResourceUsage::new();
    usage.record_allocation(10);
    usage.record_security_violation();
    usage.reset();
    assert_eq!(usage.memory_used, 0);
    assert_eq!(usage.total_allocated, 0);
    assert_eq!(usage.peak_memory, 0);
    assert_eq!(usage.allocation_count, 0);
    assert_eq!(usage.security_violations, 1);
    assert!(usage.last_violation_time.is_some());
}

#[test]
fn sandbox_allocation_over_the_total_fails_and_under_it_succeeds() {
    let mut limits = small_limits();
    limits.max_allocation_size = 1000;
    let mut sandbox = Sandbox::new("p".to_string(), limits.clone(), SecurityPolicy::default());
    assert_eq!(
        violation_text(sandbox.record_allocation(600)),
        "Total allocation limit exceeded: 600 > 500 bytes"
    );
    assert!(sandbox.check_limits().is_err());

    let mut sandbox = Sandbox::new("p".to_string(), limits, SecurityPolicy::default());
    assert!(sandbox.record_allocation(400).is_ok());
    assert!(sandbox.record_allocation(50).is_ok());
    assert_eq!(sandbox.get_resource_usage().total_allocated, 450);
    assert!(sandbox.check_limits().is_ok());
}

#[test]
fn sandbox_refuses_a_single_allocation_that_is_too_large_without_counting_it() {
    let mut sandbox = Sandbox::new("p".to_string(), small_limits(), SecurityPolicy::default());
    assert_eq!(
        violation_text(sandbox.record_allocation(101)),
        "Allocation size limit exceeded: 101 > 100 bytes"
    );
    assert_eq!(sandbox.get_resource_usage().total_allocated, 0);
    assert_eq!(sandbox.get_resource_usage().allocation_count, 0);
    assert!(sandbox.record_allocation(100).is_ok());
}

#[test]
fn ending_an_operation_counts_the_time_and_checks_the_limits() {
    let mut sandbox = Sandbox::new("p".to_string(), small_limits(), SecurityPolicy::default());
    assert_eq!(
        violation_text(sandbox.end_operation_after(Duration::from_millis(5))),
        "No operation is in progress"
    );
    assert!(sandbox.start_operation().is_ok());
    assert!(sandbox.is_active());
    assert_eq!(
        violation_text(sandbox.start_operation()),
        "Another operation is already in progress"
    );
    assert!(sandbox.end_operation_after(Duration::from_millis(400)).is_ok());
    assert!(!sandbox.is_active());
    assert_eq!(sandbox.get_resource_usage().execution_time_used_ms, 400);
    assert!(sandbox.start_operation().is_ok());
    assert_eq!(
        violation_text(sandbox.end_operation_after(Duration::from_millis(601))),
        "Execution time limit exceeded: 1001 > 1000 ms"
    );
    assert!(!sandbox.is_active());
}

#[test]
fn denied_checks_record_violations_until_termination() {
    let mut sandbox = Sandbox::new("p".to_string(), small_limits(), SecurityPolicy::restrictive());
    assert_eq!(
        violation_text(sandbox.check_filesystem_access("/etc/passwd")),
        "Filesystem access denied to path: /etc/passwd"
    );
    assert_eq!(
        violation_text(sandbox.check_network_access("example.org")),
        "Network access denied to host: example.org"
    );
    assert_eq!(
        violation_text(sandbox.check_environment_access("HOME")),
        "Environment variable access denied: HOME"
    );
    assert_eq!(
        violation_text(sandbox.check_subprocess_execution()),
        "Subprocess execution not allowed"
    );
    assert_eq!(
        violation_text(sandbox.check_system_info_access()),
        "System information access not allowed"
    );
    assert_eq!(
        violation_text(sandbox.check_recursion_depth(101)),
        "Recursion depth limit exceeded: 101 > 100"
    );
    assert!(sandbox.check_recursion_depth(100).is_ok());
    assert_eq!(sandbox.security_violations(), 6);
    assert!(!sandbox.should_terminate());
    for _ in 0..3 {
        sandbox.record_security_violation();
    }
    assert_eq!(sandbox.security_violations(), 9);
    assert!(!sandbox.should_terminate());
    sandbox.record_security_violation();
    assert!(sandbox.should_terminate());
}

#[test]
fn permissive_policy_allows_by_list_and_an_empty_list_allows_all() {
    let policy = SecurityPolicy::permissive();
    assert!(policy.is_filesystem_path_allowed("/tmp/x"));
    assert!(!policy.is_filesystem_path_allowed("/var/x"));
    assert!(policy.is_network_host_allowed("localhost"));
    assert!(policy.is_network_host_allowed("127.0.0.1"));
    assert!(!policy.is_network_host_allowed("localhost.evil"));
    assert!(policy.is_environment_var_allowed("PATH"));
    assert!(!policy.is_environment_var_allowed("SECRET-REDACTED"));
    assert!(!policy.allow_subprocesses);

    let open = SecurityPolicy {
        allow_filesystem: true,
        allow_network: true,
        allow_environment: true,
        ..SecurityPolicy::default()
    };
    assert!(open.is_filesystem_path_allowed("/anything"));
    assert!(open.is_network_host_allowed("anywhere"));
    assert!(open.is_environment_var_allowed("ANY"));

    let mut sandbox = Sandbox::new("p".to_string(), small_limits(), SecurityPolicy::permissive());
    assert!(sandbox.check_filesystem_access("/tmp/x").is_ok());
    assert!(sandbox.check_system_info_access().is_ok());
    assert_eq!(sandbox.security_violations(), 0);
}

#[test]
fn manager_lists_the_plugins_past_the_threshold() {
    let mut manager = SandboxManager::new();
    manager.create_sandbox("a".to_string(), small_limits(), SecurityPolicy::restrictive());
    manager.create_sandbox("b".to_string(), small_limits(), SecurityPolicy::restrictive());
    assert!(manager.check_for_termination().is_empty());

    let mut b = manager.remove_sandbox("b").unwrap();
    for _ in 0..10 {
        assert!(b.check_subprocess_execution().is_err());
    }
    b.record_allocation(7).unwrap();
    b.start_operation().unwrap();
    manager.insert_sandbox(b);

    assert_eq!(manager.check_for_termination(), vec!["b".to_string()]);
    let stats = manager.stats();
    assert_eq!(stats.total_sandboxes, 2);
    assert_eq!(stats.active_sandboxes, 1);
    assert_eq!(stats.total_violations, 10);
    assert_eq!(stats.total_memory_used, 7);

    assert!(manager.get_sandbox("a").is_some());
    assert!(manager.get_sandbox("c").is_none());
    manager.create_sandbox("b".to_string(), small_limits(), SecurityPolicy::restrictive());
    assert_eq!(manager.get_all_sandboxes().len(), 2);
    assert!(manager.check_for_termination().is_empty());
    assert!(manager.remove_sandbox("a").is_some());
    assert!(manager.remove_sandbox("a").is_none());
}
