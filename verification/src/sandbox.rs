//! Per-plugin resource accounting and capability checks.
//!
//! Usage is recorded first and compared with the limits afterwards: the
//! sandbox detects an excess, it does not prevent it.

use vstd::prelude::*;
use vstd::string::*;
use std::time::{Duration, Instant};
use crate::clock::duration_millis;
use crate::error::Error;
use crate::text::{decimal, decimal_digits, join2, lemma_names_push, names_of, starts_with, str_eq};

verus! {

/// The number of recorded violations at which a plugin is to be unloaded.
pub const TERMINATION_THRESHOLD: u32 = 10;

/// What a plugin may consume at most.
#[derive(Debug, Clone)]
pub struct ResourceLimits {
    /// Maximum memory in use, in bytes.
    pub max_memory: usize,
    /// Maximum CPU time, in milliseconds.
    pub max_cpu_time_ms: u64,
    /// Maximum execution time, in milliseconds.
    pub max_execution_time_ms: u64,
    /// Maximum number of open files.
    pub max_open_files: usize,
    /// Maximum number of network connections.
    pub max_network_connections: usize,
    /// Maximum size of one allocation, in bytes.
    pub max_allocation_size: usize,
    /// Maximum sum of all allocations, in bytes.
    pub max_total_allocation: usize,
    /// Maximum stack size, in bytes.
    pub max_stack_size: usize,
}

impl Default for ResourceLimits {
    fn default() -> (r: Self)
        ensures
            r.max_memory == 268435456,
            r.max_cpu_time_ms == 1000,
            r.max_execution_time_ms == 5000,
            r.max_open_files == 32,
            r.max_network_connections == 8,
            r.max_allocation_size == 16777216,
            r.max_total_allocation == 134217728,
            r.max_stack_size == 8388608,
    {
        ResourceLimits {
            max_memory: 268435456,
            max_cpu_time_ms: 1000,
            max_execution_time_ms: 5000,
            max_open_files: 32,
            max_network_connections: 8,
            max_allocation_size: 16777216,
            max_total_allocation: 134217728,
            max_stack_size: 8388608,
        }
    }
}

/// The limits that usage is compared with, in the order of comparison.
#[derive(Debug, Clone, Copy, PartialEq, Eq, Structural)]
pub enum LimitKind {
    Memory,
    CpuTime,
    ExecutionTime,
    OpenFiles,
    NetworkConnections,
    TotalAllocation,
}

/// What a plugin has consumed so far.
#[derive(Debug, Clone)]
pub struct ResourceUsage {
    /// Memory in use, in bytes.
    pub memory_used: usize,
    /// CPU time used, in milliseconds.
    pub cpu_time_used_ms: u64,
    /// Execution time used, in milliseconds.
    pub execution_time_used_ms: u64,
    /// Files currently open.
    pub open_files: usize,
    /// Network connections currently open.
    pub network_connections: usize,
    /// Number of allocations.
    pub allocation_count: usize,
    /// Sum of all allocations, in bytes.
    pub total_allocated: usize,
    /// Highest value that `memory_used` has had.
    pub peak_memory: usize,
    /// Number of security violations.
    pub security_violations: u32,
    /// When the last violation was recorded.
    pub last_violation_time: Option<Instant>,
}

/// Whether `r` is a security violation with the message `text`.
pub open spec fn is_violation(r: Result<(), Error>, text: Seq<char>) -> bool {
    r matches Err(Error::SecurityViolation(m)) && m@ == text
}

/// The text of a message that reports an exceeded limit.
pub open spec fn exceeded_text(what: Seq<char>, used: nat, max: nat, unit: Seq<char>) -> Seq<char> {
    what + " limit exceeded: "@ + decimal_digits(used) + " > "@ + decimal_digits(max) + unit
}

fn exceeded_message(what: &str, used: u64, max: u64, unit: &str) -> (r: String)
    ensures
        r@ == exceeded_text(what@, used as nat, max as nat, unit@),
{
    let mut s = String::from_str(what);
    s.append(" limit exceeded: ");
    let u = decimal(used);
    s.append(u.as_str());
    s.append(" > ");
    let m = decimal(max);
    s.append(m.as_str());
    s.append(unit);
    s
}

impl Default for ResourceUsage {
    fn default() -> (r: Self)
        ensures
            r == ResourceUsage::zero(),
    {
        ResourceUsage {
            memory_used: 0,
            cpu_time_used_ms: 0,
            execution_time_used_ms: 0,
            open_files: 0,
            network_connections: 0,
            allocation_count: 0,
            total_allocated: 0,
            peak_memory: 0,
            security_violations: 0,
            last_violation_time: None,
        }
    }
}

impl ResourceUsage {
    /// Usage with every counter at zero and no violation.
    pub open spec fn zero() -> ResourceUsage {
        ResourceUsage {
            memory_used: 0,
            cpu_time_used_ms: 0,
            execution_time_used_ms: 0,
            open_files: 0,
            network_connections: 0,
            allocation_count: 0,
            total_allocated: 0,
            peak_memory: 0,
            security_violations: 0,
            last_violation_time: None,
        }
    }

    /// The first limit that this usage exceeds, if any.
    pub open spec fn violation(self, limits: ResourceLimits) -> Option<LimitKind> {
        if self.memory_used > limits.max_memory {
            Some(LimitKind::Memory)
        } else if self.cpu_time_used_ms > limits.max_cpu_time_ms {
            Some(LimitKind::CpuTime)
        } else if self.execution_time_used_ms > limits.max_execution_time_ms {
            Some(LimitKind::ExecutionTime)
        } else if self.open_files > limits.max_open_files {
            Some(LimitKind::OpenFiles)
        } else if self.network_connections > limits.max_network_connections {
            Some(LimitKind::NetworkConnections)
        } else if self.total_allocated > limits.max_total_allocation {
            Some(LimitKind::TotalAllocation)
        } else {
            None
        }
    }

    /// The message that reports that `kind` is exceeded.
    pub open spec fn violation_text(self, limits: ResourceLimits, kind: LimitKind) -> Seq<char> {
        match kind {
            LimitKind::Memory => exceeded_text(
                "Memory"@,
                self.memory_used as nat,
                limits.max_memory as nat,
                " bytes"@,
            ),
            LimitKind::CpuTime => exceeded_text(
                "CPU time"@,
                self.cpu_time_used_ms as nat,
                limits.max_cpu_time_ms as nat,
                " ms"@,
            ),
            LimitKind::ExecutionTime => exceeded_text(
                "Execution time"@,
                self.execution_time_used_ms as nat,
                limits.max_execution_time_ms as nat,
                " ms"@,
            ),
            LimitKind::OpenFiles => exceeded_text(
                "Open files"@,
                self.open_files as nat,
                limits.max_open_files as nat,
                ""@,
            ),
            LimitKind::NetworkConnections => exceeded_text(
                "Network connections"@,
                self.network_connections as nat,
                limits.max_network_connections as nat,
                ""@,
            ),
            LimitKind::TotalAllocation => exceeded_text(
                "Total allocation"@,
                self.total_allocated as nat,
                limits.max_total_allocation as nat,
                " bytes"@,
            ),
        }
    }

    /// What `check_limits` returns for this usage under `limits`.
    pub open spec fn limits_verdict(self, limits: ResourceLimits, r: Result<(), Error>) -> bool {
        match self.violation(limits) {
            None => r is Ok,
            Some(kind) => is_violation(r, self.violation_text(limits, kind)),
        }
    }

    /// This usage after an allocation of `size` bytes.
    pub open spec fn allocated(self, size: usize) -> ResourceUsage {
        ResourceUsage {
            memory_used: (self.memory_used + size) as usize,
            total_allocated: (self.total_allocated + size) as usize,
            allocation_count: (self.allocation_count + 1) as usize,
            peak_memory: if self.peak_memory >= self.memory_used + size {
                self.peak_memory
            } else {
                (self.memory_used + size) as usize
            },
            ..self
        }
    }

    /// Whether an allocation of `size` bytes can be counted without overflow.
    pub open spec fn can_allocate(self, size: usize) -> bool {
        &&& self.memory_used + size <= usize::MAX
        &&& self.total_allocated + size <= usize::MAX
        &&& self.allocation_count < usize::MAX
    }

    /// A tracker with every counter at zero.
    pub fn new() -> (r: Self)
        ensures
            r == ResourceUsage::zero(),
    {
        ResourceUsage {
            memory_used: 0,
            cpu_time_used_ms: 0,
            execution_time_used_ms: 0,
            open_files: 0,
            network_connections: 0,
            allocation_count: 0,
            total_allocated: 0,
            peak_memory: 0,
            security_violations: 0,
            last_violation_time: None,
        }
    }

    /// Counts an allocation of `size` bytes.
    pub fn record_allocation(&mut self, size: usize)
        requires
            old(self).can_allocate(size),
        ensures
            *final(self) == old(self).allocated(size),
    {
        self.memory_used = self.memory_used + size;
        self.total_allocated = self.total_allocated + size;
        self.allocation_count = self.allocation_count + 1;
        if self.memory_used > self.peak_memory {
            self.peak_memory = self.memory_used;
        }
    }

    /// Counts a deallocation of `size` bytes; memory in use never goes below zero.
    pub fn record_deallocation(&mut self, size: usize)
        ensures
            *final(self) == (ResourceUsage {
                memory_used: if size <= old(self).memory_used {
                    (old(self).memory_used - size) as usize
                } else {
                    0
                },
                ..*old(self)
            }),
    {
        if size <= self.memory_used {
            self.memory_used = self.memory_used - size;
        } else {
            self.memory_used = 0;
        }
    }

    /// Adds the whole milliseconds of `duration` to the CPU time used.
    pub fn record_cpu_time(&mut self, duration: Duration)
        requires
            old(self).cpu_time_used_ms + duration_millis(duration) <= u64::MAX,
        ensures
            *final(self) == (ResourceUsage {
                cpu_time_used_ms: (old(self).cpu_time_used_ms + duration_millis(duration)) as u64,
                ..*old(self)
            }),
    {
        let ms: u128 = duration.as_millis();
        self.cpu_time_used_ms = self.cpu_time_used_ms + (ms as u64);
    }

    /// Adds the whole milliseconds of `duration` to the execution time used.
    pub fn record_execution_time(&mut self, duration: Duration)
        requires
            old(self).execution_time_used_ms + duration_millis(duration) <= u64::MAX,
        ensures
            *final(self) == (ResourceUsage {
                execution_time_used_ms: (old(self).execution_time_used_ms + duration_millis(
                    duration,
                )) as u64,
                ..*old(self)
            }),
    {
        let ms: u128 = duration.as_millis();
        self.execution_time_used_ms = self.execution_time_used_ms + (ms as u64);
    }

    /// Counts one security violation and notes the time.
    pub fn record_security_violation(&mut self)
        requires
            old(self).security_violations < u32::MAX,
        ensures
            final(self).security_violations == old(self).security_violations + 1,
            final(self).last_violation_time is Some,
            *final(self) == (ResourceUsage {
                security_violations: final(self).security_violations,
                last_violation_time: final(self).last_violation_time,
                ..*old(self)
            }),
    {
        self.security_violations = self.security_violations + 1;
        self.last_violation_time = Some(Instant::now());
    }

    /// Compares the usage with `limits`; the first exceeded limit is reported.
    pub fn check_limits(&self, limits: &ResourceLimits) -> (r: Result<(), Error>)
        ensures
            self.limits_verdict(*limits, r),
    {
        if self.memory_used > limits.max_memory {
            return Err(
                Error::SecurityViolation(
                    exceeded_message(
                        "Memory",
                        self.memory_used as u64,
                        limits.max_memory as u64,
                        " bytes",
                    ),
                ),
            );
        }
        if self.cpu_time_used_ms > limits.max_cpu_time_ms {
            return Err(
                Error::SecurityViolation(
                    exceeded_message(
                        "CPU time",
                        self.cpu_time_used_ms,
                        limits.max_cpu_time_ms,
                        " ms",
                    ),
                ),
            );
        }
        if self.execution_time_used_ms > limits.max_execution_time_ms {
            return Err(
                Error::SecurityViolation(
                    exceeded_message(
                        "Execution time",
                        self.execution_time_used_ms,
                        limits.max_execution_time_ms,
                        " ms",
                    ),
                ),
            );
        }
        if self.open_files > limits.max_open_files {
            return Err(
                Error::SecurityViolation(
                    exceeded_message(
                        "Open files",
                        self.open_files as u64,
                        limits.max_open_files as u64,
                        "",
                    ),
                ),
            );
        }
        if self.network_connections > limits.max_network_connections {
            return Err(
                Error::SecurityViolation(
                    exceeded_message(
                        "Network connections",
                        self.network_connections as u64,
                        limits.max_network_connections as u64,
                        "",
                    ),
                ),
            );
        }
        if self.total_allocated > limits.max_total_allocation {
            return Err(
                Error::SecurityViolation(
                    exceeded_message(
                        "Total allocation",
                        self.total_allocated as u64,
                        limits.max_total_allocation as u64,
                        " bytes",
                    ),
                ),
            );
        }
        Ok(())
    }

    /// Sets every counter to zero. Violations are kept.
    pub fn reset(&mut self)
        ensures
            *final(self) == (ResourceUsage {
                security_violations: old(self).security_violations,
                last_violation_time: old(self).last_violation_time,
                ..ResourceUsage::zero()
            }),
    {
        self.memory_used = 0;
        self.cpu_time_used_ms = 0;
        self.execution_time_used_ms = 0;
        self.open_files = 0;
        self.network_connections = 0;
        self.allocation_count = 0;
        self.total_allocated = 0;
        self.peak_memory = 0;
    }
}

/// The capabilities a plugin has. An empty allow-list beside an enabled
/// capability allows everything of that kind.
#[derive(Debug, Clone)]
pub struct SecurityPolicy {
    /// Whether the plugin may touch the filesystem.
    pub allow_filesystem: bool,
    /// Whether the plugin may use the network.
    pub allow_network: bool,
    /// Whether the plugin may start subprocesses.
    pub allow_subprocesses: bool,
    /// Whether the plugin may read environment variables.
    pub allow_environment: bool,
    /// Whether the plugin may read system information.
    pub allow_system_info: bool,
    /// Path prefixes that are allowed.
    pub allowed_filesystem_paths: Vec<String>,
    /// Hosts that are allowed.
    pub allowed_network_hosts: Vec<String>,
    /// Environment variables that are allowed.
    pub allowed_environment_vars: Vec<String>,
    /// Maximum depth of nested calls.
    pub max_recursion_depth: usize,
    /// Whether stack protection is on.
    pub enable_stack_protection: bool,
    /// Whether the memory sandbox is on.
    pub enable_memory_sandbox: bool,
}

/// Whether some entry of `list` is a prefix of `text`.
pub open spec fn some_prefix_of(list: Seq<String>, text: Seq<char>) -> bool {
    exists|i: int| 0 <= i < list.len() && (#[trigger] list[i])@.is_prefix_of(text)
}

/// Whether some entry of `list` equals `text`.
pub open spec fn some_equal_to(list: Seq<String>, text: Seq<char>) -> bool {
    exists|i: int| 0 <= i < list.len() && (#[trigger] list[i])@ == text
}

fn any_prefix_of(list: &Vec<String>, text: &str) -> (r: bool)
    ensures
        r == some_prefix_of(list@, text@),
{
    let mut i: usize = 0;
    while i < list.len()
        invariant
            i <= list@.len(),
            forall|j: int| 0 <= j < i ==> !(#[trigger] list@[j])@.is_prefix_of(text@),
        decreases list@.len() - i,
    {
        if starts_with(text, list[i].as_str()) {
            return true;
        }
        i = i + 1;
    }
    false
}

fn any_equal_to(list: &Vec<String>, text: &str) -> (r: bool)
    ensures
        r == some_equal_to(list@, text@),
{
    let mut i: usize = 0;
    while i < list.len()
        invariant
            i <= list@.len(),
            forall|j: int| 0 <= j < i ==> (#[trigger] list@[j])@ != text@,
        decreases list@.len() - i,
    {
        if str_eq(list[i].as_str(), text) {
            return true;
        }
        i = i + 1;
    }
    false
}

impl Default for SecurityPolicy {
    fn default() -> (r: Self)
        ensures
            r.is_restrictive(),
    {
        SecurityPolicy {
            allow_filesystem: false,
            allow_network: false,
            allow_subprocesses: false,
            allow_environment: false,
            allow_system_info: false,
            allowed_filesystem_paths: Vec::new(),
            allowed_network_hosts: Vec::new(),
            allowed_environment_vars: Vec::new(),
            max_recursion_depth: 100,
            enable_stack_protection: true,
            enable_memory_sandbox: true,
        }
    }
}

impl SecurityPolicy {
    /// The policy that allows nothing.
    pub open spec fn is_restrictive(self) -> bool {
        &&& !self.allow_filesystem
        &&& !self.allow_network
        &&& !self.allow_subprocesses
        &&& !self.allow_environment
        &&& !self.allow_system_info
        &&& self.allowed_filesystem_paths@.len() == 0
        &&& self.allowed_network_hosts@.len() == 0
        &&& self.allowed_environment_vars@.len() == 0
        &&& self.max_recursion_depth == 100
        &&& self.enable_stack_protection
        &&& self.enable_memory_sandbox
    }

    /// The policy for trusted plugins.
    pub open spec fn is_permissive(self) -> bool {
        &&& self.allow_filesystem
        &&& self.allow_network
        &&& !self.allow_subprocesses
        &&& self.allow_environment
        &&& self.allow_system_info
        &&& self.allowed_filesystem_paths@.len() == 1
        &&& self.allowed_filesystem_paths@[0]@ == "/tmp"@
        &&& self.allowed_network_hosts@.len() == 2
        &&& self.allowed_network_hosts@[0]@ == "localhost"@
        &&& self.allowed_network_hosts@[1]@ == "127.0.0.1"@
        &&& self.allowed_environment_vars@.len() == 2
        &&& self.allowed_environment_vars@[0]@ == "PATH"@
        &&& self.allowed_environment_vars@[1]@ == "HOME"@
        &&& self.max_recursion_depth == 1000
        &&& self.enable_stack_protection
        &&& self.enable_memory_sandbox
    }

    /// Whether access to `path` is allowed.
    pub open spec fn filesystem_allows(self, path: Seq<char>) -> bool {
        self.allow_filesystem && (self.allowed_filesystem_paths@.len() == 0 || some_prefix_of(
            self.allowed_filesystem_paths@,
            path,
        ))
    }

    /// Whether access to `host` is allowed.
    pub open spec fn network_allows(self, host: Seq<char>) -> bool {
        self.allow_network && (self.allowed_network_hosts@.len() == 0 || some_equal_to(
            self.allowed_network_hosts@,
            host,
        ))
    }

    /// Whether reading the variable `var` is allowed.
    pub open spec fn environment_allows(self, var: Seq<char>) -> bool {
        self.allow_environment && (self.allowed_environment_vars@.len() == 0 || some_equal_to(
            self.allowed_environment_vars@,
            var,
        ))
    }

    /// The policy that allows nothing.
    pub fn restrictive() -> (r: Self)
        ensures
            r.is_restrictive(),
    {
        SecurityPolicy {
            allow_filesystem: false,
            allow_network: false,
            allow_subprocesses: false,
            allow_environment: false,
            allow_system_info: false,
            allowed_filesystem_paths: Vec::new(),
            allowed_network_hosts: Vec::new(),
            allowed_environment_vars: Vec::new(),
            max_recursion_depth: 100,
            enable_stack_protection: true,
            enable_memory_sandbox: true,
        }
    }

    /// The policy for trusted plugins: everything but subprocesses, each
    /// with a short allow-list.
    pub fn permissive() -> (r: Self)
        ensures
            r.is_permissive(),
    {
        let mut paths: Vec<String> = Vec::new();
        paths.push(String::from_str("/tmp"));
        let mut hosts: Vec<String> = Vec::new();
        hosts.push(String::from_str("localhost"));
        hosts.push(String::from_str("127.0.0.1"));
        let mut vars: Vec<String> = Vec::new();
        vars.push(String::from_str("PATH"));
        vars.push(String::from_str("HOME"));
        SecurityPolicy {
            allow_filesystem: true,
            allow_network: true,
            allow_subprocesses: false,
            allow_environment: true,
            allow_system_info: true,
            allowed_filesystem_paths: paths,
            allowed_network_hosts: hosts,
            allowed_environment_vars: vars,
            max_recursion_depth: 1000,
            enable_stack_protection: true,
            enable_memory_sandbox: true,
        }
    }

    /// Whether access to `path` is allowed: filesystem access is on, and the
    /// allow-list is empty or holds a prefix of `path`.
    pub fn is_filesystem_path_allowed(&self, path: &str) -> (r: bool)
        ensures
            r == self.filesystem_allows(path@),
    {
        if !self.allow_filesystem {
            return false;
        }
        if self.allowed_filesystem_paths.len() == 0 {
            return true;
        }
        any_prefix_of(&self.allowed_filesystem_paths, path)
    }

    /// Whether access to `host` is allowed: network access is on, and the
    /// allow-list is empty or holds `host`.
    pub fn is_network_host_allowed(&self, host: &str) -> (r: bool)
        ensures
            r == self.network_allows(host@),
    {
        if !self.allow_network {
            return false;
        }
        if self.allowed_network_hosts.len() == 0 {
            return true;
        }
        any_equal_to(&self.allowed_network_hosts, host)
    }

    /// Whether reading `var` is allowed: environment access is on, and the
    /// allow-list is empty or holds `var`.
    pub fn is_environment_var_allowed(&self, var: &str) -> (r: bool)
        ensures
            r == self.environment_allows(var@),
    {
        if !self.allow_environment {
            return false;
        }
        if self.allowed_environment_vars.len() == 0 {
            return true;
        }
        any_equal_to(&self.allowed_environment_vars, var)
    }
}

/// The enforcement boundary of one plugin: its limits, its policy, and what
/// it has used.
#[derive(Debug)]
pub struct Sandbox {
    plugin_name: String,
    limits: ResourceLimits,
    policy: SecurityPolicy,
    usage: ResourceUsage,
    /// When the operation in progress began; `None` while idle.
    operation_start_time: Option<Instant>,
}

impl Sandbox {
    /// The name of the plugin.
    pub closed spec fn name(&self) -> Seq<char> {
        self.plugin_name@
    }

    /// The limits of the plugin.
    pub closed spec fn limits(&self) -> ResourceLimits {
        self.limits
    }

    /// The policy of the plugin.
    pub closed spec fn policy(&self) -> SecurityPolicy {
        self.policy
    }

    /// What the plugin has used.
    pub closed spec fn usage(&self) -> ResourceUsage {
        self.usage
    }

    /// Whether an operation is in progress.
    pub closed spec fn active(&self) -> bool {
        self.operation_start_time is Some
    }

    /// When the operation in progress began.
    pub closed spec fn started_at(&self) -> Option<Instant> {
        self.operation_start_time
    }

    /// Whether `self` and `other` differ in nothing but usage.
    pub open spec fn same_but_usage(&self, other: &Sandbox) -> bool {
        &&& self.name() == other.name()
        &&& self.limits() == other.limits()
        &&& self.policy() == other.policy()
        &&& self.active() == other.active()
        &&& self.started_at() == other.started_at()
    }

    /// The usage after one more violation was recorded on `before`.
    pub open spec fn one_more_violation(before: ResourceUsage, after: ResourceUsage) -> bool {
        &&& after.security_violations == before.security_violations + 1
        &&& after.last_violation_time is Some
        &&& after == (ResourceUsage {
            security_violations: after.security_violations,
            last_violation_time: after.last_violation_time,
            ..before
        })
    }

    /// What a capability check leaves behind and returns: nothing changes
    /// and the check passes where `allowed`; otherwise one violation is
    /// recorded and the check fails with `text`.
    pub open spec fn checked(
        &self,
        before: &Sandbox,
        allowed: bool,
        text: Seq<char>,
        r: Result<(), Error>,
    ) -> bool {
        &&& self.same_but_usage(before)
        &&& allowed ==> r is Ok && self.usage() == before.usage()
        &&& !allowed ==> Sandbox::one_more_violation(before.usage(), self.usage())
        &&& !allowed ==> is_violation(r, text)
    }

    /// What ending an operation after `elapsed` leaves behind and returns:
    /// the sandbox is idle, the elapsed milliseconds are added to the
    /// execution time, and the limits are compared.
    pub open spec fn ended(&self, before: &Sandbox, elapsed: Duration, r: Result<(), Error>) -> bool {
        &&& self.name() == before.name()
        &&& self.limits() == before.limits()
        &&& self.policy() == before.policy()
        &&& !self.active()
        &&& self.started_at() is None
        &&& self.usage() == (ResourceUsage {
            execution_time_used_ms: (before.usage().execution_time_used_ms + duration_millis(
                elapsed,
            )) as u64,
            ..before.usage()
        })
        &&& self.usage().limits_verdict(self.limits(), r)
    }

    /// What beginning an operation leaves behind and returns: it
    /// succeeds just when none is in progress, and then one is; otherwise
    /// it fails and nothing changes. Usage, limits and policy stay.
    pub open spec fn begun(&self, before: &Sandbox, r: Result<(), Error>) -> bool {
        &&& self.name() == before.name()
        &&& self.limits() == before.limits()
        &&& self.policy() == before.policy()
        &&& self.usage() == before.usage()
        &&& r is Ok <==> !before.active()
        &&& r is Ok ==> self.active()
        &&& r is Err ==> *self == *before && is_violation(
            r,
            "Another operation is already in progress"@,
        )
    }

    /// Operations do not nest: once an operation has begun, another one
    /// cannot begin before it has ended.
    pub proof fn lemma_operations_do_not_nest(
        idle: Sandbox,
        busy: Sandbox,
        after: Sandbox,
        first: Result<(), Error>,
        second: Result<(), Error>,
    )
        requires
            busy.begun(&idle, first),
            first is Ok,
            after.begun(&busy, second),
        ensures
            second is Err,
            after == busy,
    {
    }

    /// A sandbox for `plugin_name` with nothing used and no operation in progress.
    pub fn new(plugin_name: String, limits: ResourceLimits, policy: SecurityPolicy) -> (r: Self)
        ensures
            r.name() == plugin_name@,
            r.limits() == limits,
            r.policy() == policy,
            r.usage() == ResourceUsage::zero(),
            !r.active(),
            r.started_at() is None,
    {
        Sandbox {
            plugin_name,
            limits,
            policy,
            usage: ResourceUsage::new(),
            operation_start_time: None,
        }
    }

    /// Begins an operation. Fails, changing nothing, while another one is in
    /// progress.
    pub fn start_operation(&mut self) -> (r: Result<(), Error>)
        ensures
            final(self).begun(old(self), r),
    {
        if self.operation_start_time.is_some() {
            return Err(
                Error::SecurityViolation(String::from_str("Another operation is already in progress")),
            );
        }
        self.operation_start_time = Some(Instant::now());
        Ok(())
    }

    /// Ends the operation in progress, `elapsed` after it began. Fails,
    /// changing nothing, when none is in progress.
    pub fn end_operation_after(&mut self, elapsed: Duration) -> (r: Result<(), Error>)
        requires
            old(self).active() ==> old(self).usage().execution_time_used_ms + duration_millis(
                elapsed,
            ) <= u64::MAX,
        ensures
            !old(self).active() ==> *final(self) == *old(self),
            !old(self).active() ==> is_violation(r, "No operation is in progress"@),
            old(self).active() ==> final(self).ended(old(self), elapsed, r),
    {
        if self.operation_start_time.is_none() {
            return Err(Error::SecurityViolation(String::from_str("No operation is in progress")));
        }
        self.usage.record_execution_time(elapsed);
        self.operation_start_time = None;
        self.usage.check_limits(&self.limits)
    }

    /// What ending an operation leaves behind and returns when the clock
    /// gives `elapsed` as the time since it began: where that time fits
    /// the counter, the operation ends as `ended` says; where it does not,
    /// nothing changes and the call fails.
    pub open spec fn ended_by_clock(&self, before: &Sandbox, elapsed: Duration, r: Result<(), Error>) -> bool {
        if before.usage().execution_time_used_ms + duration_millis(elapsed) <= u64::MAX {
            self.ended(before, elapsed, r)
        } else {
            *self == *before && is_violation(r, "Execution time counter exhausted"@)
        }
    }

    /// Ends the operation in progress and counts the time since it began.
    /// Fails, changing nothing, when none is in progress, and also when the
    /// elapsed time no longer fits the counter.
    pub fn end_operation(&mut self) -> (r: Result<(), Error>)
        ensures
            !old(self).active() ==> *final(self) == *old(self),
            !old(self).active() ==> is_violation(r, "No operation is in progress"@),
            old(self).active() ==> exists|elapsed: Duration| #[trigger]
                final(self).ended_by_clock(old(self), elapsed, r),
    {
        let elapsed: Duration = match &self.operation_start_time {
            Some(start) => start.elapsed(),
            None => {
                return Err(
                    Error::SecurityViolation(String::from_str("No operation is in progress")),
                );
            },
        };
        let ms: u128 = elapsed.as_millis();
        if ms > (u64::MAX - self.usage.execution_time_used_ms) as u128 {
            let r = Err(
                Error::SecurityViolation(String::from_str("Execution time counter exhausted")),
            );
            assert(self.ended_by_clock(old(self), elapsed, r));
            return r;
        }
        let r = self.end_operation_after(elapsed);
        assert(self.ended_by_clock(old(self), elapsed, r));
        r
    }

    /// Compares the usage with the limits.
    pub fn check_limits(&self) -> (r: Result<(), Error>)
        ensures
            self.usage().limits_verdict(self.limits(), r),
    {
        self.usage.check_limits(&self.limits)
    }

    /// Counts an allocation of `size` bytes and compares the usage with the
    /// limits. An allocation above the single-allocation limit is refused
    /// and not counted.
    pub fn record_allocation(&mut self, size: usize) -> (r: Result<(), Error>)
        requires
            size <= old(self).limits().max_allocation_size ==> old(self).usage().can_allocate(size),
        ensures
            final(self).same_but_usage(old(self)),
            size > old(self).limits().max_allocation_size ==> final(self).usage() == old(self).usage() && is_violation(
                r,
                exceeded_text(
                    "Allocation size"@,
                    size as nat,
                    old(self).limits().max_allocation_size as nat,
                    " bytes"@,
                ),
            ),
            size <= old(self).limits().max_allocation_size ==> final(self).usage() == old(self).usage().allocated(size) && final(self).usage().limits_verdict(old(self).limits(), r),
    {
        if size > self.limits.max_allocation_size {
            return Err(
                Error::SecurityViolation(
                    exceeded_message(
                        "Allocation size",
                        size as u64,
                        self.limits.max_allocation_size as u64,
                        " bytes",
                    ),
                ),
            );
        }
        self.usage.record_allocation(size);
        self.usage.check_limits(&self.limits)
    }

    /// Counts a deallocation of `size` bytes.
    pub fn record_deallocation(&mut self, size: usize)
        ensures
            final(self).same_but_usage(old(self)),
            final(self).usage() == (ResourceUsage {
                memory_used: if size <= old(self).usage().memory_used {
                    (old(self).usage().memory_used - size) as usize
                } else {
                    0
                },
                ..old(self).usage()
            }),
    {
        self.usage.record_deallocation(size);
    }

    /// Adds `duration` to the CPU time used and compares the usage with the limits.
    pub fn record_cpu_time(&mut self, duration: Duration) -> (r: Result<(), Error>)
        requires
            old(self).usage().cpu_time_used_ms + duration_millis(duration) <= u64::MAX,
        ensures
            final(self).same_but_usage(old(self)),
            final(self).usage() == (ResourceUsage {
                cpu_time_used_ms: (old(self).usage().cpu_time_used_ms + duration_millis(
                    duration,
                )) as u64,
                ..old(self).usage()
            }),
            final(self).usage().limits_verdict(old(self).limits(), r),
    {
        self.usage.record_cpu_time(duration);
        self.usage.check_limits(&self.limits)
    }

    fn deny(&mut self, message: String) -> (r: Result<(), Error>)
        requires
            old(self).usage().security_violations < u32::MAX,
        ensures
            final(self).checked(old(self), false, message@, r),
    {
        self.usage.record_security_violation();
        Err(Error::SecurityViolation(message))
    }

    /// Passes where the policy allows access to `path`; otherwise records a
    /// violation and fails.
    pub fn check_filesystem_access(&mut self, path: &str) -> (r: Result<(), Error>)
        requires
            old(self).usage().security_violations < u32::MAX,
        ensures
            final(self).checked(
                old(self),
                old(self).policy().filesystem_allows(path@),
                "Filesystem access denied to path: "@ + path@,
                r,
            ),
    {
        if !self.policy.is_filesystem_path_allowed(path) {
            return self.deny(join2("Filesystem access denied to path: ", path));
        }
        Ok(())
    }

    /// Passes where the policy allows access to `host`; otherwise records a
    /// violation and fails.
    pub fn check_network_access(&mut self, host: &str) -> (r: Result<(), Error>)
        requires
            old(self).usage().security_violations < u32::MAX,
        ensures
            final(self).checked(
                old(self),
                old(self).policy().network_allows(host@),
                "Network access denied to host: "@ + host@,
                r,
            ),
    {
        if !self.policy.is_network_host_allowed(host) {
            return self.deny(join2("Network access denied to host: ", host));
        }
        Ok(())
    }

    /// Passes where the policy allows reading `var`; otherwise records a
    /// violation and fails.
    pub fn check_environment_access(&mut self, var: &str) -> (r: Result<(), Error>)
        requires
            old(self).usage().security_violations < u32::MAX,
        ensures
            final(self).checked(
                old(self),
                old(self).policy().environment_allows(var@),
                "Environment variable access denied: "@ + var@,
                r,
            ),
    {
        if !self.policy.is_environment_var_allowed(var) {
            return self.deny(join2("Environment variable access denied: ", var));
        }
        Ok(())
    }

    /// Passes where the policy allows subprocesses; otherwise records a
    /// violation and fails.
    pub fn check_subprocess_execution(&mut self) -> (r: Result<(), Error>)
        requires
            old(self).usage().security_violations < u32::MAX,
        ensures
            final(self).checked(
                old(self),
                old(self).policy().allow_subprocesses,
                "Subprocess execution not allowed"@,
                r,
            ),
    {
        if !self.policy.allow_subprocesses {
            return self.deny(String::from_str("Subprocess execution not allowed"));
        }
        Ok(())
    }

    /// Passes where the policy allows reading system information; otherwise
    /// records a violation and fails.
    pub fn check_system_info_access(&mut self) -> (r: Result<(), Error>)
        requires
            old(self).usage().security_violations < u32::MAX,
        ensures
            final(self).checked(
                old(self),
                old(self).policy().allow_system_info,
                "System information access not allowed"@,
                r,
            ),
    {
        if !self.policy.allow_system_info {
            return self.deny(String::from_str("System information access not allowed"));
        }
        Ok(())
    }

    /// Passes where `depth` is within the policy's maximum; otherwise
    /// records a violation and fails.
    pub fn check_recursion_depth(&mut self, depth: usize) -> (r: Result<(), Error>)
        requires
            old(self).usage().security_violations < u32::MAX,
        ensures
            final(self).checked(
                old(self),
                depth <= old(self).policy().max_recursion_depth,
                exceeded_text(
                    "Recursion depth"@,
                    depth as nat,
                    old(self).policy().max_recursion_depth as nat,
                    ""@,
                ),
                r,
            ),
    {
        if depth > self.policy.max_recursion_depth {
            let message = exceeded_message(
                "Recursion depth",
                depth as u64,
                self.policy.max_recursion_depth as u64,
                "",
            );
            return self.deny(message);
        }
        Ok(())
    }

    /// Counts one security violation and notes the time.
    pub fn record_security_violation(&mut self)
        requires
            old(self).usage().security_violations < u32::MAX,
        ensures
            final(self).same_but_usage(old(self)),
            Sandbox::one_more_violation(old(self).usage(), final(self).usage()),
    {
        self.usage.record_security_violation();
    }

    /// What the plugin has used.
    pub fn get_resource_usage(&self) -> (r: &ResourceUsage)
        ensures
            *r == self.usage(),
    {
        &self.usage
    }

    /// The policy of the plugin.
    pub fn get_security_policy(&self) -> (r: &SecurityPolicy)
        ensures
            *r == self.policy(),
    {
        &self.policy
    }

    /// The limits of the plugin.
    pub fn get_resource_limits(&self) -> (r: &ResourceLimits)
        ensures
            *r == self.limits(),
    {
        &self.limits
    }

    /// Sets every usage counter to zero. Violations are kept.
    pub fn reset_usage(&mut self)
        ensures
            final(self).same_but_usage(old(self)),
            final(self).usage() == (ResourceUsage {
                security_violations: old(self).usage().security_violations,
                last_violation_time: old(self).usage().last_violation_time,
                ..ResourceUsage::zero()
            }),
    {
        self.usage.reset();
    }

    /// Whether an operation is in progress.
    pub fn is_active(&self) -> (r: bool)
        ensures
            r == self.active(),
    {
        self.operation_start_time.is_some()
    }

    /// The name of the plugin.
    pub fn plugin_name(&self) -> (r: &str)
        ensures
            r@ == self.name(),
    {
        self.plugin_name.as_str()
    }

    /// The number of recorded violations.
    pub fn security_violations(&self) -> (r: u32)
        ensures
            r == self.usage().security_violations,
    {
        self.usage.security_violations
    }

    /// Whether the recorded violations have reached the threshold at which
    /// the host is to unload the plugin.
    pub fn should_terminate(&self) -> (r: bool)
        ensures
            r == (self.usage().security_violations >= TERMINATION_THRESHOLD),
    {
        self.usage.security_violations >= TERMINATION_THRESHOLD
    }
}

/// Counts over all the sandboxes of a manager.
#[derive(Debug, Clone)]
pub struct SandboxManagerStats {
    /// Number of sandboxes.
    pub total_sandboxes: usize,
    /// Number of sandboxes with an operation in progress.
    pub active_sandboxes: usize,
    /// Sum of the recorded violations.
    pub total_violations: u32,
    /// Sum of the memory in use.
    pub total_memory_used: usize,
}

/// The names of the sandboxes in `s` that have reached the termination
/// threshold, in the order of `s`.
pub open spec fn past_threshold(s: Seq<Sandbox>) -> Seq<Seq<char>>
    decreases s.len(),
{
    if s.len() == 0 {
        Seq::empty()
    } else if s.last().usage().security_violations >= TERMINATION_THRESHOLD {
        past_threshold(s.drop_last()).push(s.last().name())
    } else {
        past_threshold(s.drop_last())
    }
}

/// The sum of the violations recorded in `s`.
pub open spec fn sum_violations(s: Seq<Sandbox>) -> nat
    decreases s.len(),
{
    if s.len() == 0 {
        0
    } else {
        sum_violations(s.drop_last()) + s.last().usage().security_violations as nat
    }
}

/// The sum of the memory in use in `s`.
pub open spec fn sum_memory(s: Seq<Sandbox>) -> nat
    decreases s.len(),
{
    if s.len() == 0 {
        0
    } else {
        sum_memory(s.drop_last()) + s.last().usage().memory_used as nat
    }
}

/// The number of sandboxes in `s` with an operation in progress.
pub open spec fn count_active(s: Seq<Sandbox>) -> nat
    decreases s.len(),
{
    if s.len() == 0 {
        0
    } else {
        count_active(s.drop_last()) + if s.last().active() {
            1nat
        } else {
            0nat
        }
    }
}

proof fn lemma_sums_grow(s: Seq<Sandbox>, i: int)
    requires
        0 <= i <= s.len(),
    ensures
        sum_violations(s.take(i)) <= sum_violations(s),
        sum_memory(s.take(i)) <= sum_memory(s),
        count_active(s.take(i)) <= i,
    decreases s.len() - i,
{
    if i == s.len() {
        assert(s.take(i) =~= s);
        lemma_count_active_bound(s);
    } else {
        lemma_sums_grow(s, i + 1);
        assert(s.take(i + 1).drop_last() =~= s.take(i));
        lemma_count_active_bound(s.take(i));
    }
}

proof fn lemma_count_active_bound(s: Seq<Sandbox>)
    ensures
        count_active(s) <= s.len(),
    decreases s.len(),
{
    if s.len() > 0 {
        lemma_count_active_bound(s.drop_last());
    }
}

/// The sandboxes of all plugins, one per plugin name.
pub struct SandboxManager {
    sandboxes: Vec<Sandbox>,
}

impl View for SandboxManager {
    type V = Seq<Sandbox>;

    closed spec fn view(&self) -> Seq<Sandbox> {
        self.sandboxes@
    }
}

impl SandboxManager {
    /// No two sandboxes have the same plugin name.
    pub open spec fn wf(&self) -> bool {
        forall|i: int, j: int|
            0 <= i < j < self@.len() ==> (#[trigger] self@[i]).name() != (#[trigger] self@[j]).name()
    }

    /// The position of the sandbox named `name`, if there is one.
    pub open spec fn position(&self, name: Seq<char>) -> Option<int> {
        if exists|i: int| 0 <= i < self@.len() && (#[trigger] self@[i]).name() == name {
            Some(choose|i: int| 0 <= i < self@.len() && (#[trigger] self@[i]).name() == name)
        } else {
            None
        }
    }

    /// A manager without sandboxes.
    pub fn new() -> (r: Self)
        ensures
            r@.len() == 0,
            r.wf(),
    {
        SandboxManager { sandboxes: Vec::new() }
    }

    fn find(&self, name: &str) -> (r: Option<usize>)
        ensures
            match r {
                Some(i) => i < self@.len() && self@[i as int].name() == name@,
                None => forall|j: int| 0 <= j < self@.len() ==> (#[trigger] self@[j]).name() != name@,
            },
            r is Some <==> self.position(name@) is Some,
            self.wf() && r is Some ==> self.position(name@) == Some(r->0 as int),
    {
        let mut i: usize = 0;
        while i < self.sandboxes.len()
            invariant
                i <= self@.len(),
                forall|j: int| 0 <= j < i ==> (#[trigger] self@[j]).name() != name@,
            decreases self@.len() - i,
        {
            if str_eq(self.sandboxes[i].plugin_name(), name) {
                return Some(i);
            }
            i = i + 1;
        }
        None
    }

    /// Creates a fresh sandbox for `plugin_name`; one of the same name is replaced.
    pub fn create_sandbox(&mut self, plugin_name: String, limits: ResourceLimits, policy: SecurityPolicy)
        requires
            old(self).wf(),
        ensures
            final(self).wf(),
            match old(self).position(plugin_name@) {
                Some(i) => final(self)@.len() == old(self)@.len() && (forall|j: int|
                    0 <= j < old(self)@.len() && j != i ==> final(self)@[j] == old(self)@[j])
                    && Self::fresh(final(self)@[i], plugin_name@, limits, policy),
                None => final(self)@.len() == old(self)@.len() + 1 && final(self)@.drop_last() == old(self)@ && Self::fresh(final(self)@.last(), plugin_name@, limits, policy),
            },
    {
        let found = self.find(plugin_name.as_str());
        let sandbox = Sandbox::new(plugin_name, limits, policy);
        match found {
            Some(i) => {
                self.sandboxes.set(i, sandbox);
            },
            None => {
                self.sandboxes.push(sandbox);
                assert(final(self)@.drop_last() =~= old(self)@) by {
                    assert(self@.drop_last() =~= old(self)@);
                }
            },
        }
    }

    /// Whether `s` is a sandbox as `Sandbox::new` makes it.
    pub open spec fn fresh(s: Sandbox, name: Seq<char>, limits: ResourceLimits, policy: SecurityPolicy) -> bool {
        &&& s.name() == name
        &&& s.limits() == limits
        &&& s.policy() == policy
        &&& s.usage() == ResourceUsage::zero()
        &&& !s.active()
    }

    /// The sandbox of `plugin_name`, if it has one.
    pub fn get_sandbox(&self, plugin_name: &str) -> (r: Option<&Sandbox>)
        requires
            self.wf(),
        ensures
            match self.position(plugin_name@) {
                Some(i) => r == Some(&self@[i]),
                None => r is None,
            },
    {
        match self.find(plugin_name) {
            Some(i) => Some(&self.sandboxes[i]),
            None => None,
        }
    }

    /// Removes the sandbox of `plugin_name`, if it has one, and hands it out.
    pub fn remove_sandbox(&mut self, plugin_name: &str) -> (r: Option<Sandbox>)
        requires
            old(self).wf(),
        ensures
            final(self).wf(),
            match old(self).position(plugin_name@) {
                Some(i) => r == Some(old(self)@[i]) && final(self)@ == old(self)@.remove(i),
                None => r is None && final(self)@ == old(self)@,
            },
    {
        match self.find(plugin_name) {
            Some(i) => {
                let s = self.sandboxes.remove(i);
                Some(s)
            },
            None => None,
        }
    }

    /// Puts back a sandbox that `remove_sandbox` handed out; one of the same
    /// name is replaced.
    pub fn insert_sandbox(&mut self, sandbox: Sandbox)
        requires
            old(self).wf(),
        ensures
            final(self).wf(),
            match old(self).position(sandbox.name()) {
                Some(i) => final(self)@ == old(self)@.update(i, sandbox),
                None => final(self)@ == old(self)@.push(sandbox),
            },
    {
        let ghost name = sandbox.name();
        match self.find(sandbox.plugin_name()) {
            Some(i) => {
                self.sandboxes.set(i, sandbox);
                assert forall|a: int, b: int| 0 <= a < b < self@.len() implies (#[trigger] self@[a]).name()
                    != (#[trigger] self@[b]).name() by {
                    assert(old(self)@[a].name() != old(self)@[b].name());
                    assert(self@[a].name() == old(self)@[a].name());
                    assert(self@[b].name() == old(self)@[b].name());
                }
            },
            None => {
                self.sandboxes.push(sandbox);
                assert forall|a: int, b: int| 0 <= a < b < self@.len() implies (#[trigger] self@[a]).name()
                    != (#[trigger] self@[b]).name() by {
                    assert(self@[a] == old(self)@[a]);
                    if b < old(self)@.len() {
                        assert(self@[b] == old(self)@[b]);
                    } else {
                        assert(self@[b].name() == name);
                    }
                }
            },
        }
    }

    /// All sandboxes.
    pub fn get_all_sandboxes(&self) -> (r: &Vec<Sandbox>)
        ensures
            r@ == self@,
    {
        &self.sandboxes
    }

    /// The names of the plugins whose violations have reached the threshold
    /// and that the host is to unload.
    pub fn check_for_termination(&self) -> (r: Vec<String>)
        ensures
            names_of(r@) == past_threshold(self@),
    {
        let mut out: Vec<String> = Vec::new();
        let mut i: usize = 0;
        assert(self@.take(0) =~= Seq::<Sandbox>::empty());
        assert(names_of(out@) =~= Seq::<Seq<char>>::empty());
        while i < self.sandboxes.len()
            invariant
                i <= self@.len(),
                names_of(out@) == past_threshold(self@.take(i as int)),
            decreases self@.len() - i,
        {
            assert(self@.take(i + 1).drop_last() =~= self@.take(i as int));
            if self.sandboxes[i].should_terminate() {
                let name = String::from_str(self.sandboxes[i].plugin_name());
                proof {
                    lemma_names_push(out@, name);
                }
                out.push(name);
            }
            i = i + 1;
        }
        assert(self@.take(i as int) =~= self@);
        out
    }

    /// Counts over all sandboxes.
    pub fn stats(&self) -> (r: SandboxManagerStats)
        requires
            sum_violations(self@) <= u32::MAX,
            sum_memory(self@) <= usize::MAX,
        ensures
            r.total_sandboxes == self@.len(),
            r.active_sandboxes == count_active(self@),
            r.total_violations == sum_violations(self@),
            r.total_memory_used == sum_memory(self@),
    {
        let mut total_violations: u32 = 0;
        let mut active_sandboxes: usize = 0;
        let mut total_memory_used: usize = 0;
        let mut i: usize = 0;
        assert(self@.take(0) =~= Seq::<Sandbox>::empty());
        while i < self.sandboxes.len()
            invariant
                i <= self@.len(),
                sum_violations(self@) <= u32::MAX,
                sum_memory(self@) <= usize::MAX,
                total_violations == sum_violations(self@.take(i as int)),
                total_memory_used == sum_memory(self@.take(i as int)),
                active_sandboxes == count_active(self@.take(i as int)),
            decreases self@.len() - i,
        {
            proof {
                assert(self@.take(i + 1).drop_last() =~= self@.take(i as int));
                lemma_sums_grow(self@, i + 1);
            }
            let usage = self.sandboxes[i].get_resource_usage();
            total_violations = total_violations + usage.security_violations;
            total_memory_used = total_memory_used + usage.memory_used;
            if self.sandboxes[i].is_active() {
                active_sandboxes = active_sandboxes + 1;
            }
            i = i + 1;
        }
        assert(self@.take(i as int) =~= self@);
        SandboxManagerStats {
            total_sandboxes: self.sandboxes.len(),
            active_sandboxes,
            total_violations,
            total_memory_used,
        }
    }
}

} // verus!
