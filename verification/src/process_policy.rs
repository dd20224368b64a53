//! Process-level hardening policy: the `prctl` settings and resource limits
//! applied on Linux, the job-object limits and mitigation policies applied
//! on Windows, and the errors reported when the system refuses one.

use vstd::prelude::*;
use crate::numbers::{int_decimal, push_i64};
use crate::text::{push_str, string_from_chars};

verus! {

/// Why process hardening could not be applied.
#[derive(Clone, Copy, Debug, PartialEq, Eq)]
pub enum SandboxError {
    Unsupported,
    OsError(&'static str, i32),
}

pub const UNSUPPORTED_MESSAGE: &'static str = "OS sandbox hardening is unsupported on this target";

pub open spec fn sandbox_error_message(e: SandboxError) -> Seq<char> {
    match e {
        SandboxError::Unsupported => UNSUPPORTED_MESSAGE@,
        SandboxError::OsError(operation, code) => operation@ + " failed with OS error "@ + int_decimal(
            code as int,
        ),
    }
}

impl SandboxError {
    /// The error as text.
    pub fn message(&self) -> (r: String)
        ensures
            r@ == sandbox_error_message(*self),
    {
        match self {
            SandboxError::Unsupported => UNSUPPORTED_MESSAGE.to_owned(),
            SandboxError::OsError(operation, code) => {
                let mut out: Vec<char> = Vec::new();
                push_str(&mut out, operation);
                push_str(&mut out, " failed with OS error ");
                push_i64(&mut out, *code as i64);
                proof {
                    reveal_strlit(" failed with OS error ");
                }
                assert(out@ =~= sandbox_error_message(*self));
                string_from_chars(out.as_slice())
            },
        }
    }
}

pub const PR_SET_NO_NEW_PRIVS: i32 = 38;
pub const PR_SET_DUMPABLE: i32 = 4;

/// One `prctl(option, value, 0, 0, 0)` call and the name its failure is
/// reported under.
#[derive(Clone, Copy, Debug, PartialEq, Eq)]
pub struct PrctlStep {
    pub option: i32,
    pub value: u64,
    pub operation: &'static str,
}

pub open spec fn prctl_steps_spec() -> Seq<(i32, u64, Seq<char>)> {
    seq![
        (PR_SET_NO_NEW_PRIVS, 1u64, "prctl(PR_SET_NO_NEW_PRIVS)"@),
        (PR_SET_DUMPABLE, 0u64, "prctl(PR_SET_DUMPABLE)"@),
    ]
}

pub open spec fn step_view(s: PrctlStep) -> (i32, u64, Seq<char>) {
    (s.option, s.value, s.operation@)
}

/// The Linux settings, in order: no new privileges through `execve`
/// (inherited by descendants), then not dumpable, which keeps ptrace and
/// core dumps away from the process.
pub fn linux_prctl_steps() -> (r: Vec<PrctlStep>)
    ensures
        r@.map_values(|s: PrctlStep| step_view(s)) == prctl_steps_spec(),
{
    let v: Vec<PrctlStep> = vec![
        PrctlStep { option: PR_SET_NO_NEW_PRIVS, value: 1, operation: "prctl(PR_SET_NO_NEW_PRIVS)" },
        PrctlStep { option: PR_SET_DUMPABLE, value: 0, operation: "prctl(PR_SET_DUMPABLE)" },
    ];
    assert(v@.map_values(|s: PrctlStep| step_view(s)) =~= prctl_steps_spec());
    v
}

/// A `prctl` that returned anything but 0 failed, with the `errno`.
pub fn prctl_outcome(step: PrctlStep, result: i32, errno: i32) -> (r: Result<(), SandboxError>)
    ensures
        result == 0 ==> r is Ok,
        result != 0 ==> r == Err::<(), SandboxError>(SandboxError::OsError(step.operation, errno)),
{
    if result != 0 {
        Err(SandboxError::OsError(step.operation, errno))
    } else {
        Ok(())
    }
}

/// The resources limited on Linux.
#[derive(Clone, Copy, Debug, PartialEq, Eq, Structural)]
pub enum ResourceLimit {
    /// `RLIMIT_NOFILE`
    OpenFiles,
    /// `RLIMIT_CORE`
    CoreDumpSize,
}

/// Each limit, set as both the soft and the hard value.
#[derive(Clone, Copy, Debug, PartialEq, Eq)]
pub struct LimitSetting {
    pub resource: ResourceLimit,
    pub value: u64,
}

pub open spec fn resource_limits_spec() -> Seq<(ResourceLimit, u64)> {
    seq![(ResourceLimit::OpenFiles, 4096u64), (ResourceLimit::CoreDumpSize, 0u64)]
}

/// At most 4096 open files, and no core dumps.
pub fn linux_resource_limits() -> (r: Vec<LimitSetting>)
    ensures
        r@.map_values(|s: LimitSetting| (s.resource, s.value)) == resource_limits_spec(),
{
    let v: Vec<LimitSetting> = vec![
        LimitSetting { resource: ResourceLimit::OpenFiles, value: 4096 },
        LimitSetting { resource: ResourceLimit::CoreDumpSize, value: 0 },
    ];
    assert(v@.map_values(|s: LimitSetting| (s.resource, s.value)) =~= resource_limits_spec());
    v
}

pub const JOB_OBJECT_LIMIT_ACTIVE_PROCESS: u32 = 0x0000_0008;
pub const JOB_OBJECT_LIMIT_KILL_ON_JOB_CLOSE: u32 = 0x0000_2000;
/// `JobObjectExtendedLimitInformation`
pub const JOB_OBJECT_EXTENDED_LIMIT_INFORMATION: u32 = 9;

/// The Windows job the process is put in.
#[derive(Clone, Copy, Debug, PartialEq, Eq)]
pub struct JobPolicy {
    pub limit_flags: u32,
    pub active_process_limit: u32,
}

/// One active process (no children can be created) and everything killed
/// when the job handle closes.
pub fn windows_job_policy() -> (r: JobPolicy)
    ensures
        r.limit_flags == (JOB_OBJECT_LIMIT_ACTIVE_PROCESS | JOB_OBJECT_LIMIT_KILL_ON_JOB_CLOSE),
        r.active_process_limit == 1,
{
    JobPolicy {
        limit_flags: JOB_OBJECT_LIMIT_ACTIVE_PROCESS | JOB_OBJECT_LIMIT_KILL_ON_JOB_CLOSE,
        active_process_limit: 1,
    }
}

pub const EXTENSION_POINT_DISABLE_POLICY: u32 = 6;
pub const STRICT_HANDLE_CHECK_POLICY: u32 = 3;
pub const IMAGE_LOAD_POLICY: u32 = 10;
pub const IMAGE_LOAD_NO_REMOTE: u32 = 0x1;
pub const IMAGE_LOAD_NO_LOW_LABEL: u32 = 0x2;
pub const IMAGE_LOAD_PREFER_SYSTEM32: u32 = 0x4;

/// One `SetProcessMitigationPolicy(policy, &flags)` call.
#[derive(Clone, Copy, Debug, PartialEq, Eq)]
pub struct MitigationSetting {
    pub policy: u32,
    pub flags: u32,
}

pub open spec fn mitigations_spec() -> Seq<(u32, u32)> {
    seq![
        (EXTENSION_POINT_DISABLE_POLICY, 1u32),
        (STRICT_HANDLE_CHECK_POLICY, 1u32),
        (IMAGE_LOAD_POLICY, IMAGE_LOAD_NO_REMOTE | IMAGE_LOAD_NO_LOW_LABEL | IMAGE_LOAD_PREFER_SYSTEM32),
    ]
}

/// The Windows mitigations, in order: legacy extension points off, strict
/// handle checks on, images loaded neither from remote nor low-label
/// locations and preferably from System32.
pub fn windows_mitigations() -> (r: Vec<MitigationSetting>)
    ensures
        r@.map_values(|s: MitigationSetting| (s.policy, s.flags)) == mitigations_spec(),
{
    let v: Vec<MitigationSetting> = vec![
        MitigationSetting { policy: EXTENSION_POINT_DISABLE_POLICY, flags: 1 },
        MitigationSetting { policy: STRICT_HANDLE_CHECK_POLICY, flags: 1 },
        MitigationSetting {
            policy: IMAGE_LOAD_POLICY,
            flags: IMAGE_LOAD_NO_REMOTE | IMAGE_LOAD_NO_LOW_LABEL | IMAGE_LOAD_PREFER_SYSTEM32,
        },
    ];
    assert(v@.map_values(|s: MitigationSetting| (s.policy, s.flags)) =~= mitigations_spec());
    v
}

} // verus!
