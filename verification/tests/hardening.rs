use std::sync::atomic::{AtomicUsize, Ordering};
use std::time::Duration;

use bumble_bee::checksum::{hex_string, Checksum};
use bumble_bee::cookie_policy::{cleanup_once, on_timer_event, CookieStoreController, TimerAction, TimerEvent, COOKIE_CLEANUP_INTERVAL_SECS};
use bumble_bee::linux_security::{
    audit_arch, denied_syscalls, landlock_probe, no_execute_ruleset, seccomp_filter, LandlockProbe, LinuxSecurityError, SeccompArch,
    SockFilter, LANDLOCK_ACCESS_FS_EXECUTE, RET_EPERM, SECCOMP_ARCH_AARCH64, SECCOMP_ARCH_X86_64,
    SECCOMP_RET_ALLOW, SECCOMP_RET_KILL_PROCESS,
};
use bumble_bee::process_policy::{
    linux_prctl_steps, linux_resource_limits, prctl_outcome, windows_job_policy, windows_mitigations,
    ResourceLimit, SandboxError,
};

#[test]
fn deny_list_contains_execve_on_supported_arches() {
    assert!(denied_syscalls(SeccompArch::X86_64).contains(&59));
    assert!(denied_syscalls(SeccompArch::Aarch64).contains(&221));
}

#[test]
fn policy_is_exactly_one_hour() {
    assert_eq!(Duration::from_secs(COOKIE_CLEANUP_INTERVAL_SECS), Duration::from_secs(3_600));
}

struct TestController(AtomicUsize);

impl CookieStoreController for TestController {
    fn clear_all_cookies(&self) {
        self.0.fetch_add(1, Ordering::SeqCst);
    }
}

#[test]
fn cleanup_once_calls_the_controller() {
    let controller = TestController(AtomicUsize::new(0));
    cleanup_once(&controller);
    assert_eq!(controller.0.load(Ordering::SeqCst), 1);
}

#[test]
fn timer_only_cleans_after_an_interval() {
    assert_eq!(on_timer_event(TimerEvent::IntervalElapsed), TimerAction::CleanUp);
    assert_eq!(on_timer_event(TimerEvent::StopRequested), TimerAction::Exit);
    assert_eq!(on_timer_event(TimerEvent::Disconnected), TimerAction::Exit);
}

/// Runs a seccomp program the way the kernel's classic BPF machine does,
/// for the instructions the filter uses.
fn run(prog: &[SockFilter], nr: u32, arch: u32) -> Option<u32> {
    let mut pc = 0usize;
    let mut acc = 0u32;
    while pc < prog.len() {
        let ins = prog[pc];
        match ins.code {
            0x20 => {
                acc = match ins.k {
                    0 => nr,
                    4 => arch,
                    _ => return None,
                };
                pc += 1;
            }
            0x15 => pc += 1 + if acc == ins.k { ins.jt as usize } else { ins.jf as usize },
            0x45 => pc += 1 + if acc & ins.k != 0 { ins.jt as usize } else { ins.jf as usize },
            0x54 => {
                acc &= ins.k;
                pc += 1;
            }
            0x06 => return Some(ins.k),
            _ => return None,
        }
    }
    None
}

#[test]
fn seccomp_program_decides_as_the_policy_says() {
    let x86 = seccomp_filter(SeccompArch::X86_64);
    assert_eq!(x86.len(), 8 + 2 * denied_syscalls(SeccompArch::X86_64).len() + 1);
    assert_eq!(x86[1], SockFilter { code: 0x15, jt: 1, jf: 0, k: SECCOMP_ARCH_X86_64 });
    assert_eq!(run(&x86, 59, SECCOMP_ARCH_X86_64), Some(RET_EPERM));
    assert_eq!(run(&x86, 0, SECCOMP_ARCH_X86_64), Some(SECCOMP_RET_ALLOW));
    assert_eq!(run(&x86, 59, SECCOMP_ARCH_AARCH64), Some(SECCOMP_RET_KILL_PROCESS));
    assert_eq!(run(&x86, 0x4000_0000 | 59, SECCOMP_ARCH_X86_64), Some(SECCOMP_RET_KILL_PROCESS));
    assert_eq!(run(&x86, 0x4000_0000, SECCOMP_ARCH_X86_64), Some(SECCOMP_RET_KILL_PROCESS));
    assert_eq!(run(&x86, 16, SECCOMP_ARCH_X86_64), Some(SECCOMP_RET_ALLOW));
    assert_eq!(run(&x86, 56, SECCOMP_ARCH_X86_64), Some(SECCOMP_RET_ALLOW));
    let arm = seccomp_filter(SeccompArch::Aarch64);
    assert_eq!(run(&arm, 221, SECCOMP_ARCH_AARCH64), Some(RET_EPERM));
    assert_eq!(run(&arm, 268, SECCOMP_ARCH_AARCH64), Some(RET_EPERM));
    assert_eq!(run(&arm, 142, SECCOMP_ARCH_AARCH64), Some(RET_EPERM));
    assert_eq!(run(&arm, 97, SECCOMP_ARCH_AARCH64), Some(RET_EPERM));
    assert_eq!(run(&arm, 219, SECCOMP_ARCH_AARCH64), Some(RET_EPERM));
    assert_eq!(run(&arm, 29, SECCOMP_ARCH_AARCH64), Some(SECCOMP_RET_ALLOW));
    assert_eq!(run(&arm, 63, SECCOMP_ARCH_AARCH64), Some(SECCOMP_RET_ALLOW));
    assert_eq!(audit_arch(SeccompArch::Aarch64), 0xc000_00b7);
    assert_eq!(RET_EPERM, 0x0005_0001);
}

#[test]
fn landlock_decisions() {
    assert_eq!(landlock_probe(-1, 38, 38, 95), LandlockProbe::Unavailable);
    assert_eq!(landlock_probe(-1, 95, 38, 95), LandlockProbe::Unavailable);
    assert_eq!(landlock_probe(-1, 1, 38, 95), LandlockProbe::Failed(1));
    assert_eq!(landlock_probe(3, 0, 38, 95), LandlockProbe::Available);
    let rules = no_execute_ruleset();
    assert_eq!(rules.handled_access_fs, LANDLOCK_ACCESS_FS_EXECUTE);
    assert_eq!(rules.handled_access_net, 0);
}

#[test]
fn process_policies() {
    let steps = linux_prctl_steps();
    assert_eq!((steps[0].option, steps[0].value, steps[0].operation), (38, 1, "prctl(PR_SET_NO_NEW_PRIVS)"));
    assert_eq!((steps[1].option, steps[1].value, steps[1].operation), (4, 0, "prctl(PR_SET_DUMPABLE)"));
    assert_eq!(prctl_outcome(steps[0], 0, 0), Ok(()));
    let err = prctl_outcome(steps[1], -1, 1).unwrap_err();
    assert_eq!(err, SandboxError::OsError("prctl(PR_SET_DUMPABLE)", 1));
    assert_eq!(err.message(), "prctl(PR_SET_DUMPABLE) failed with OS error 1");
    assert_eq!(SandboxError::OsError("x", -1).message(), "x failed with OS error -1");
    assert_eq!(SandboxError::Unsupported.message(), "OS sandbox hardening is unsupported on this target");
    let limits = linux_resource_limits();
    assert_eq!((limits[0].resource, limits[0].value), (ResourceLimit::OpenFiles, 4096));
    assert_eq!((limits[1].resource, limits[1].value), (ResourceLimit::CoreDumpSize, 0));
    let job = windows_job_policy();
    assert_eq!((job.limit_flags, job.active_process_limit), (0x2008, 1));
    let m = windows_mitigations();
    assert_eq!(m.iter().map(|s| (s.policy, s.flags)).collect::<Vec<_>>(), vec![(6, 1), (3, 1), (10, 7)]);
}

#[test]
fn checksum_is_sha256_in_lowercase_hex() {
    let mut sum = Checksum::new();
    sum.update(b"ab");
    sum.update(b"c");
    assert_eq!(sum.finish(), "ba7816bf8f01cfea414140de5dae2223b00361a396177a9cb410ff61f20015ad");
    assert_eq!(Checksum::new().finish(), "e3b0c44298fc1c149afbf4c8996fb92427ae41e4649b934ca495991b7852b855");
    assert_eq!(hex_string(&[0x0f, 0xa0, 0x00]), "0fa000");
}

#[test]
fn kernel_hardening_error_messages() {
    assert_eq!(LinuxSecurityError::Seccomp(22).message(), "seccomp failed with errno 22");
    assert_eq!(LinuxSecurityError::Landlock(-1).message(), "Landlock failed with errno -1");
}
