//! Kernel hardening policy for the untrusted content process on Linux: the
//! seccomp program that denies a fixed list of dangerous system calls, and
//! what the Landlock set-up decides from the kernel's answers.
//!
//! The program checks the audit architecture first and kills the process
//! on a foreign one or on an x32 call; a listed call fails with `EPERM`,
//! anything else is allowed.

use vstd::prelude::*;
use crate::numbers::{int_decimal, push_i64};
use crate::text::{push_str, string_from_chars};

verus! {

pub const EPERM: u32 = 1;
pub const SECCOMP_RET_KILL_PROCESS: u32 = 0x8000_0000;
pub const SECCOMP_RET_ERRNO: u32 = 0x0005_0000;
pub const SECCOMP_RET_ALLOW: u32 = 0x7fff_0000;
pub const SECCOMP_RET_DATA: u32 = 0x0000_ffff;

pub const BPF_LD: u16 = 0x00;
pub const BPF_W: u16 = 0x00;
pub const BPF_ABS: u16 = 0x20;
pub const BPF_JMP: u16 = 0x05;
pub const BPF_JEQ: u16 = 0x10;
pub const BPF_JSET: u16 = 0x40;
pub const BPF_K: u16 = 0x00;
pub const BPF_RET: u16 = 0x06;
pub const BPF_ALU: u16 = 0x04;
pub const BPF_AND: u16 = 0x50;

pub const SECCOMP_ARCH_X86_64: u32 = 0xc000_003e;
pub const SECCOMP_ARCH_AARCH64: u32 = 0xc000_00b7;
pub const X32_SYSCALL_BIT: u32 = 0x4000_0000;

/// Offsets in the kernel's `seccomp_data`: the call number, then the
/// audit architecture.
pub const SECCOMP_DATA_NR: u32 = 0;
pub const SECCOMP_DATA_ARCH: u32 = 4;

/// `BPF_LD | BPF_W | BPF_ABS`
pub const LOAD_WORD: u16 = 0x20;
/// `BPF_JMP | BPF_JEQ | BPF_K`
pub const JUMP_EQ: u16 = 0x15;
/// `BPF_JMP | BPF_JSET | BPF_K`
pub const JUMP_SET: u16 = 0x45;
/// `BPF_ALU | BPF_AND | BPF_K`
pub const AND_K: u16 = 0x54;
/// `BPF_RET | BPF_K`
pub const RETURN: u16 = 0x06;
/// `SECCOMP_RET_ERRNO | (EPERM & SECCOMP_RET_DATA)`
pub const RET_EPERM: u32 = 0x0005_0001;

/// The opcodes above are the combinations the kernel headers spell out.
pub proof fn lemma_opcodes()
    ensures
        LOAD_WORD == BPF_LD | BPF_W | BPF_ABS,
        JUMP_EQ == BPF_JMP | BPF_JEQ | BPF_K,
        JUMP_SET == BPF_JMP | BPF_JSET | BPF_K,
        AND_K == BPF_ALU | BPF_AND | BPF_K,
        RETURN == BPF_RET | BPF_K,
        RET_EPERM == SECCOMP_RET_ERRNO | (EPERM & SECCOMP_RET_DATA),
{
    assert(0x20u16 == 0x00u16 | 0x00u16 | 0x20u16) by (bit_vector);
    assert(0x15u16 == 0x05u16 | 0x10u16 | 0x00u16) by (bit_vector);
    assert(0x45u16 == 0x05u16 | 0x40u16 | 0x00u16) by (bit_vector);
    assert(0x54u16 == 0x04u16 | 0x50u16 | 0x00u16) by (bit_vector);
    assert(0x06u16 == 0x06u16 | 0x00u16) by (bit_vector);
    assert(0x0005_0001u32 == 0x0005_0000u32 | (1u32 & 0x0000_ffffu32)) by (bit_vector);
}

/// The architectures whose system-call numbers are known here.
#[derive(Clone, Copy, Debug, PartialEq, Eq, Structural)]
pub enum SeccompArch {
    X86_64,
    Aarch64,
}

pub open spec fn audit_arch_spec(arch: SeccompArch) -> u32 {
    match arch {
        SeccompArch::X86_64 => SECCOMP_ARCH_X86_64,
        SeccompArch::Aarch64 => SECCOMP_ARCH_AARCH64,
    }
}

/// The value the kernel reports as `seccomp_data.arch` for `arch`.
pub fn audit_arch(arch: SeccompArch) -> (r: u32)
    ensures
        r == audit_arch_spec(arch),
{
    match arch {
        SeccompArch::X86_64 => SECCOMP_ARCH_X86_64,
        SeccompArch::Aarch64 => SECCOMP_ARCH_AARCH64,
    }
}

/// The denied call numbers, each once: process execution, tracing, mounts
/// and namespaces, kernel modules and kexec, BPF and perf, userfaultfd,
/// handle-based opens, the kernel keyring and reboot. `ioctl`,
/// `prctl` and `clone`, which the engine needs, stay allowed.
pub open spec fn denied_syscalls_spec(arch: SeccompArch) -> Seq<u32> {
    match arch {
        SeccompArch::X86_64 => seq![
            59u32, 322, 101, 165, 166, 155, 272, 308, 246, 313, 175, 176, 321, 298, 323, 304, 303, 250,
            248, 249, 169,
        ],
        SeccompArch::Aarch64 => seq![
            221u32, 281, 117, 40, 39, 268, 41, 97, 104, 273, 105, 106, 280, 241, 282, 265, 264, 219, 142,
        ],
    }
}

/// Each list names every call once, and the x86-64 list leaves `ioctl` (16),
/// `prctl` (157) and `clone` (56) allowed.
pub proof fn lemma_deny_lists(arch: SeccompArch)
    ensures
        denied_syscalls_spec(arch).no_duplicates(),
        arch == SeccompArch::X86_64 ==> !denied_syscalls_spec(arch).contains(16) && !denied_syscalls_spec(
            arch,
        ).contains(157) && !denied_syscalls_spec(arch).contains(56),
{
    let s = denied_syscalls_spec(arch);
    assert forall|i: int, j: int| 0 <= i < s.len() && 0 <= j < s.len() && i != j implies s[i] != s[j] by {
        match arch {
            SeccompArch::X86_64 => {},
            SeccompArch::Aarch64 => {},
        }
    }
    if arch == SeccompArch::X86_64 {
        assert forall|i: int| 0 <= i < s.len() implies s[i] != 16 && s[i] != 157 && s[i] != 56 by {}
    }
}

/// The system calls the content process may not make on `arch`.
pub fn denied_syscalls(arch: SeccompArch) -> (r: Vec<u32>)
    ensures
        r@ == denied_syscalls_spec(arch),
{
    match arch {
        SeccompArch::X86_64 => {
            let v: Vec<u32> = vec![
                59, 322, 101, 165, 166, 155, 272, 308, 246, 313, 175, 176, 321, 298, 323, 304, 303, 250,
                248, 249, 169,
            ];
            assert(v@ =~= denied_syscalls_spec(arch));
            v
        },
        SeccompArch::Aarch64 => {
            let v: Vec<u32> = vec![
                221, 281, 117, 40, 39, 268, 41, 97, 104, 273, 105, 106, 280, 241, 282, 265, 264, 219, 142,
            ];
            assert(v@ =~= denied_syscalls_spec(arch));
            v
        },
    }
}

/// One classic-BPF instruction.
#[derive(Clone, Copy, Debug, PartialEq, Eq, Structural)]
pub struct SockFilter {
    pub code: u16,
    pub jt: u8,
    pub jf: u8,
    pub k: u32,
}

pub open spec fn stmt(code: u16, k: u32) -> SockFilter {
    SockFilter { code, jt: 0, jf: 0, k }
}

pub open spec fn jump(code: u16, jt: u8, jf: u8, k: u32) -> SockFilter {
    SockFilter { code, jt, jf, k }
}

/// Check the architecture (kill on mismatch), kill x32 calls, then load the
/// call number.
pub open spec fn filter_prologue(arch_value: u32) -> Seq<SockFilter> {
    seq![
        stmt(LOAD_WORD, SECCOMP_DATA_ARCH),
        jump(JUMP_EQ, 1, 0, arch_value),
        stmt(RETURN, SECCOMP_RET_KILL_PROCESS),
        stmt(LOAD_WORD, SECCOMP_DATA_NR),
        stmt(AND_K, X32_SYSCALL_BIT),
        jump(JUMP_SET, 0, 1, X32_SYSCALL_BIT),
        stmt(RETURN, SECCOMP_RET_KILL_PROCESS),
        stmt(LOAD_WORD, SECCOMP_DATA_NR),
    ]
}

/// For each listed call: if the number matches, fail it with `EPERM`.
pub open spec fn deny_rules(list: Seq<u32>) -> Seq<SockFilter>
    decreases list.len(),
{
    if list.len() == 0 {
        Seq::empty()
    } else {
        seq![jump(JUMP_EQ, 0, 1, list[0]), stmt(RETURN, RET_EPERM)] + deny_rules(list.drop_first())
    }
}

/// The whole seccomp program for `arch`.
pub open spec fn seccomp_program(arch: SeccompArch) -> Seq<SockFilter> {
    filter_prologue(audit_arch_spec(arch)) + deny_rules(denied_syscalls_spec(arch)) + seq![
        stmt(RETURN, SECCOMP_RET_ALLOW),
    ]
}

proof fn lemma_deny_rules_len(list: Seq<u32>)
    ensures
        deny_rules(list).len() == 2 * list.len(),
    decreases list.len(),
{
    if list.len() > 0 {
        lemma_deny_rules_len(list.drop_first());
    }
}

proof fn lemma_deny_rules_push(list: Seq<u32>, s: u32)
    ensures
        deny_rules(list.push(s)) == deny_rules(list) + seq![jump(JUMP_EQ, 0, 1, s), stmt(RETURN, RET_EPERM)],
    decreases list.len(),
{
    if list.len() == 0 {
        assert(list.push(s).drop_first() =~= Seq::<u32>::empty());
        assert(deny_rules(Seq::<u32>::empty()) =~= Seq::<SockFilter>::empty());
        assert(list.push(s)[0] == s);
        assert(deny_rules(list) =~= Seq::<SockFilter>::empty());
        assert(deny_rules(list.push(s)) =~= seq![jump(JUMP_EQ, 0, 1, s), stmt(RETURN, RET_EPERM)]);
    } else {
        assert(list.push(s).drop_first() =~= list.drop_first().push(s));
        lemma_deny_rules_push(list.drop_first(), s);
        assert(deny_rules(list.push(s)) =~= deny_rules(list) + seq![
            jump(JUMP_EQ, 0, 1, s),
            stmt(RETURN, RET_EPERM),
        ]);
    }
}

/// The seccomp program installed for `arch`.
pub fn seccomp_filter(arch: SeccompArch) -> (r: Vec<SockFilter>)
    ensures
        r@ == seccomp_program(arch),
{
    let arch_value = audit_arch(arch);
    let denied = denied_syscalls(arch);
    let mut filter: Vec<SockFilter> = Vec::new();
    filter.push(SockFilter { code: LOAD_WORD, jt: 0, jf: 0, k: SECCOMP_DATA_ARCH });
    filter.push(SockFilter { code: JUMP_EQ, jt: 1, jf: 0, k: arch_value });
    filter.push(SockFilter { code: RETURN, jt: 0, jf: 0, k: SECCOMP_RET_KILL_PROCESS });
    filter.push(SockFilter { code: LOAD_WORD, jt: 0, jf: 0, k: SECCOMP_DATA_NR });
    filter.push(SockFilter { code: AND_K, jt: 0, jf: 0, k: X32_SYSCALL_BIT });
    filter.push(SockFilter { code: JUMP_SET, jt: 0, jf: 1, k: X32_SYSCALL_BIT });
    filter.push(SockFilter { code: RETURN, jt: 0, jf: 0, k: SECCOMP_RET_KILL_PROCESS });
    filter.push(SockFilter { code: LOAD_WORD, jt: 0, jf: 0, k: SECCOMP_DATA_NR });
    assert(filter@ =~= filter_prologue(arch_value) + deny_rules(denied@.take(0)));
    let mut i: usize = 0;
    while i < denied.len()
        invariant
            i <= denied@.len(),
            filter@ == filter_prologue(arch_value) + deny_rules(denied@.take(i as int)),
        decreases denied@.len() - i,
    {
        let s = denied[i];
        filter.push(SockFilter { code: JUMP_EQ, jt: 0, jf: 1, k: s });
        filter.push(SockFilter { code: RETURN, jt: 0, jf: 0, k: RET_EPERM });
        proof {
            assert(denied@.take(i + 1) =~= denied@.take(i as int).push(s));
            lemma_deny_rules_push(denied@.take(i as int), s);
            assert(filter@ =~= filter_prologue(arch_value) + deny_rules(denied@.take(i + 1)));
        }
        i = i + 1;
    }
    filter.push(SockFilter { code: RETURN, jt: 0, jf: 0, k: SECCOMP_RET_ALLOW });
    assert(denied@.take(denied@.len() as int) =~= denied@);
    assert(filter@ =~= seccomp_program(arch));
    filter
}

/// The word a load at `offset` reads from `seccomp_data`.
pub open spec fn load_word(offset: u32, nr: u32, arch: u32) -> Option<u32> {
    if offset == SECCOMP_DATA_NR {
        Some(nr)
    } else if offset == SECCOMP_DATA_ARCH {
        Some(arch)
    } else {
        None
    }
}

/// What the kernel's classic-BPF machine returns when it runs `prog` from
/// `pc` with accumulator `acc`, for a call numbered `nr` on architecture
/// `arch`; `None` for a program that runs off its end or uses an
/// instruction outside the ones above.
pub open spec fn bpf_eval(prog: Seq<SockFilter>, pc: int, acc: u32, nr: u32, arch: u32) -> Option<u32>
    decreases prog.len() - pc,
{
    if pc < 0 || pc >= prog.len() {
        None
    } else {
        let ins = prog[pc];
        if ins.code == LOAD_WORD {
            match load_word(ins.k, nr, arch) {
                Some(v) => bpf_eval(prog, pc + 1, v, nr, arch),
                None => None,
            }
        } else if ins.code == JUMP_EQ || ins.code == JUMP_SET {
            let taken = if ins.code == JUMP_EQ { acc == ins.k } else { acc & ins.k != 0 };
            let next = pc + 1 + if taken { ins.jt as int } else { ins.jf as int };
            if next > prog.len() {
                None
            } else {
                bpf_eval(prog, next, acc, nr, arch)
            }
        } else if ins.code == AND_K {
            bpf_eval(prog, pc + 1, acc & ins.k, nr, arch)
        } else if ins.code == RETURN {
            Some(ins.k)
        } else {
            None
        }
    }
}

/// The verdict of the policy: a foreign architecture or an x32 call kills
/// the process, a listed call fails with `EPERM`, the rest runs.
pub open spec fn seccomp_verdict(arch: SeccompArch, nr: u32, audit: u32) -> u32 {
    if audit != audit_arch_spec(arch) {
        SECCOMP_RET_KILL_PROCESS
    } else if nr & X32_SYSCALL_BIT != 0 {
        SECCOMP_RET_KILL_PROCESS
    } else if denied_syscalls_spec(arch).contains(nr) {
        RET_EPERM
    } else {
        SECCOMP_RET_ALLOW
    }
}

proof fn lemma_deny_rules_eval(prog: Seq<SockFilter>, base: int, list: Seq<u32>, nr: u32, audit: u32)
    requires
        0 <= base,
        base + 2 * list.len() + 1 <= prog.len(),
        prog.subrange(base, base + 2 * list.len() + 1) == deny_rules(list) + seq![stmt(RETURN, SECCOMP_RET_ALLOW)],
    ensures
        bpf_eval(prog, base, nr, nr, audit) == Some(
            if list.contains(nr) {
                RET_EPERM
            } else {
                SECCOMP_RET_ALLOW
            },
        ),
    decreases list.len(),
{
    lemma_deny_rules_len(list);
    if list.len() == 0 {
        assert(deny_rules(list) =~= Seq::<SockFilter>::empty());
        assert(prog[base] == prog.subrange(base, base + 1)[0]);
        assert(prog[base] == stmt(RETURN, SECCOMP_RET_ALLOW));
        assert(!list.contains(nr));
    } else {
        let sub = prog.subrange(base, base + 2 * list.len() + 1);
        assert(prog[base] == sub[0]);
        assert(prog[base + 1] == sub[1]);
        assert(prog[base] == jump(JUMP_EQ, 0, 1, list[0]));
        assert(prog[base + 1] == stmt(RETURN, RET_EPERM));
        if nr == list[0] {
            assert(list.contains(nr));
            assert(bpf_eval(prog, base + 1, nr, nr, audit) == Some(RET_EPERM));
            assert(bpf_eval(prog, base, nr, nr, audit) == bpf_eval(prog, base + 1, nr, nr, audit));
        } else {
            assert(bpf_eval(prog, base, nr, nr, audit) == bpf_eval(prog, base + 2, nr, nr, audit));
            let tail = list.drop_first();
            lemma_deny_rules_len(tail);
            assert(prog.subrange(base + 2, base + 2 + 2 * tail.len() + 1) =~= sub.subrange(2, sub.len() as int));
            assert(sub.subrange(2, sub.len() as int) =~= deny_rules(tail) + seq![stmt(RETURN, SECCOMP_RET_ALLOW)]);
            lemma_deny_rules_eval(prog, base + 2, tail, nr, audit);
            assert(list.contains(nr) == tail.contains(nr)) by {
                if tail.contains(nr) {
                    let j = choose|j: int| 0 <= j < tail.len() && tail[j] == nr;
                    assert(list[j + 1] == nr);
                }
                if list.contains(nr) {
                    let j = choose|j: int| 0 <= j < list.len() && list[j] == nr;
                    assert(j != 0);
                    assert(tail[j - 1] == nr);
                }
            }
        }
    }
}

/// The installed program decides every call as the policy means: run on
/// any call number and reported architecture, it returns exactly
/// `seccomp_verdict`.
pub proof fn lemma_seccomp_filter_decides(arch: SeccompArch, nr: u32, audit: u32)
    ensures
        bpf_eval(seccomp_program(arch), 0, 0, nr, audit) == Some(seccomp_verdict(arch, nr, audit)),
{
    let prog = seccomp_program(arch);
    let list = denied_syscalls_spec(arch);
    lemma_deny_rules_len(list);
    let pro = filter_prologue(audit_arch_spec(arch));
    assert(prog[0] == pro[0]);
    assert(prog[1] == pro[1]);
    assert(prog[2] == pro[2]);
    assert(prog[3] == pro[3]);
    assert(prog[4] == pro[4]);
    assert(prog[5] == pro[5]);
    assert(prog[6] == pro[6]);
    assert(prog[7] == pro[7]);
    assert(bpf_eval(prog, 0, 0, nr, audit) == bpf_eval(prog, 1, audit, nr, audit));
    if audit != audit_arch_spec(arch) {
        assert(bpf_eval(prog, 2, audit, nr, audit) == Some(SECCOMP_RET_KILL_PROCESS));
        assert(bpf_eval(prog, 1, audit, nr, audit) == bpf_eval(prog, 2, audit, nr, audit));
    } else {
        assert(bpf_eval(prog, 1, audit, nr, audit) == bpf_eval(prog, 3, audit, nr, audit));
        let masked = nr & X32_SYSCALL_BIT;
        assert((nr & 0x4000_0000u32) & 0x4000_0000u32 == nr & 0x4000_0000u32) by (bit_vector);
        if masked != 0 {
            assert(bpf_eval(prog, 6, masked, nr, audit) == Some(SECCOMP_RET_KILL_PROCESS));
            assert(bpf_eval(prog, 5, masked, nr, audit) == bpf_eval(prog, 6, masked, nr, audit));
        } else {
            assert(prog.subrange(8, 8 + 2 * list.len() as int + 1) =~= deny_rules(list) + seq![
                stmt(RETURN, SECCOMP_RET_ALLOW),
            ]);
            lemma_deny_rules_eval(prog, 8, list, nr, audit);
            assert(bpf_eval(prog, 7, masked, nr, audit) == bpf_eval(prog, 8, nr, nr, audit));
            assert(bpf_eval(prog, 5, masked, nr, audit) == bpf_eval(prog, 7, masked, nr, audit));
        }
        assert(bpf_eval(prog, 4, nr, nr, audit) == bpf_eval(prog, 5, masked, nr, audit));
        assert(bpf_eval(prog, 3, audit, nr, audit) == bpf_eval(prog, 4, nr, nr, audit));
    }
}

/// Why kernel hardening could not be installed, with the `errno`.
#[derive(Clone, Copy, Debug, PartialEq, Eq, Structural)]
pub enum LinuxSecurityError {
    Seccomp(i32),
    Landlock(i32),
}

pub open spec fn linux_security_message(e: LinuxSecurityError) -> Seq<char> {
    match e {
        LinuxSecurityError::Seccomp(code) => "seccomp failed with errno "@ + int_decimal(code as int),
        LinuxSecurityError::Landlock(code) => "Landlock failed with errno "@ + int_decimal(code as int),
    }
}

impl LinuxSecurityError {
    /// The error as text.
    pub fn message(&self) -> (r: String)
        ensures
            r@ == linux_security_message(*self),
    {
        let mut out: Vec<char> = Vec::new();
        match self {
            LinuxSecurityError::Seccomp(code) => {
                push_str(&mut out, "seccomp failed with errno ");
                push_i64(&mut out, *code as i64);
            },
            LinuxSecurityError::Landlock(code) => {
                push_str(&mut out, "Landlock failed with errno ");
                push_i64(&mut out, *code as i64);
            },
        }
        assert(out@ =~= linux_security_message(*self));
        string_from_chars(out.as_slice())
    }
}

/// What the first Landlock call tells the set-up.
#[derive(Clone, Copy, Debug, PartialEq, Eq, Structural)]
pub enum LandlockProbe {
    /// The kernel has no Landlock: go on without it.
    Unavailable,
    /// Landlock is there: create the ruleset.
    Available,
    /// The probe failed for another reason.
    Failed(i32),
}

/// A negative ABI version is an error; `ENOSYS` and `EOPNOTSUPP` only mean
/// that the kernel lacks Landlock, which keeps the rest of the hardening.
pub open spec fn landlock_probe_spec(abi: i64, errno: i32, enosys: i32, eopnotsupp: i32) -> LandlockProbe {
    if abi < 0 {
        if errno == enosys || errno == eopnotsupp {
            LandlockProbe::Unavailable
        } else {
            LandlockProbe::Failed(errno)
        }
    } else {
        LandlockProbe::Available
    }
}

/// Read the answer to the Landlock ABI query; `enosys` and `eopnotsupp`
/// are the platform's values of those error numbers.
pub fn landlock_probe(abi: i64, errno: i32, enosys: i32, eopnotsupp: i32) -> (r: LandlockProbe)
    ensures
        r == landlock_probe_spec(abi, errno, enosys, eopnotsupp),
{
    if abi < 0 {
        if errno == enosys || errno == eopnotsupp {
            LandlockProbe::Unavailable
        } else {
            LandlockProbe::Failed(errno)
        }
    } else {
        LandlockProbe::Available
    }
}

pub const LANDLOCK_CREATE_RULESET_VERSION: u32 = 1;
pub const LANDLOCK_ACCESS_FS_EXECUTE: u64 = 1;
pub const LANDLOCK_RESTRICT_SELF_TSYNC: u32 = 1;

/// The Landlock ruleset: only file execution is handled, and no rule grants
/// it, so nothing new can be executed.
#[derive(Clone, Copy, Debug, PartialEq, Eq, Structural)]
pub struct LandlockRuleset {
    pub handled_access_fs: u64,
    pub handled_access_net: u64,
    pub scoped: u64,
    pub quiet_access_fs: u64,
    pub quiet_access_net: u64,
    pub quiet_scoped: u64,
}

/// The ruleset that forbids execution.
pub fn no_execute_ruleset() -> (r: LandlockRuleset)
    ensures
        r.handled_access_fs == LANDLOCK_ACCESS_FS_EXECUTE,
        r.handled_access_net == 0 && r.scoped == 0,
        r.quiet_access_fs == 0 && r.quiet_access_net == 0 && r.quiet_scoped == 0,
{
    LandlockRuleset {
        handled_access_fs: LANDLOCK_ACCESS_FS_EXECUTE,
        handled_access_net: 0,
        scoped: 0,
        quiet_access_fs: 0,
        quiet_access_net: 0,
        quiet_scoped: 0,
    }
}

/// A call number below the x32 bit has that bit clear.
proof fn lemma_below_x32_bit(nr: u32)
    requires
        nr < 0x4000_0000,
    ensures
        nr & X32_SYSCALL_BIT == 0,
{
    assert(nr < 0x4000_0000u32 ==> nr & 0x4000_0000u32 == 0) by (bit_vector);
}

/// On x86-64 the installed program fails with `EPERM` exactly the calls the
/// policy names (execve, execveat, ptrace, mount, umount2, pivot_root,
/// unshare, setns, kexec_load, finit_module, init_module, delete_module,
/// bpf, perf_event_open, userfaultfd, open_by_handle_at,
/// name_to_handle_at, keyctl, add_key, request_key, reboot) and lets every
/// other native call run.
pub proof fn lemma_x86_64_policy(nr: u32)
    requires
        nr < 0x4000_0000,
    ensures
        (nr == 59 || nr == 322 || nr == 101 || nr == 165 || nr == 166 || nr == 155 || nr == 272 || nr == 308
            || nr == 246 || nr == 313 || nr == 175 || nr == 176 || nr == 321 || nr == 298 || nr == 323 || nr
            == 304 || nr == 303 || nr == 250 || nr == 248 || nr == 249 || nr == 169) ==> bpf_eval(
            seccomp_program(SeccompArch::X86_64),
            0,
            0,
            nr,
            SECCOMP_ARCH_X86_64,
        ) == Some(RET_EPERM),
        !(nr == 59 || nr == 322 || nr == 101 || nr == 165 || nr == 166 || nr == 155 || nr == 272 || nr == 308
            || nr == 246 || nr == 313 || nr == 175 || nr == 176 || nr == 321 || nr == 298 || nr == 323 || nr
            == 304 || nr == 303 || nr == 250 || nr == 248 || nr == 249 || nr == 169) ==> bpf_eval(
            seccomp_program(SeccompArch::X86_64),
            0,
            0,
            nr,
            SECCOMP_ARCH_X86_64,
        ) == Some(SECCOMP_RET_ALLOW),
{
    lemma_seccomp_filter_decides(SeccompArch::X86_64, nr, SECCOMP_ARCH_X86_64);
    lemma_below_x32_bit(nr);
    let s = denied_syscalls_spec(SeccompArch::X86_64);
    assert(s.len() == 21);
    assert(s[0] == 59 && s[1] == 322 && s[2] == 101 && s[3] == 165 && s[4] == 166 && s[5] == 155 && s[6] == 272
        && s[7] == 308 && s[8] == 246 && s[9] == 313 && s[10] == 175 && s[11] == 176 && s[12] == 321 && s[13]
        == 298 && s[14] == 323 && s[15] == 304 && s[16] == 303 && s[17] == 250 && s[18] == 248 && s[19] == 249
        && s[20] == 169);
    assert(s.contains(nr) <==> (nr == 59 || nr == 322 || nr == 101 || nr == 165 || nr == 166 || nr == 155 || nr
        == 272 || nr == 308 || nr == 246 || nr == 313 || nr == 175 || nr == 176 || nr == 321 || nr == 298 || nr
        == 323 || nr == 304 || nr == 303 || nr == 250 || nr == 248 || nr == 249 || nr == 169));
}

/// On aarch64 the installed program fails with `EPERM` exactly the calls
/// the policy names (execve, execveat, ptrace, mount, umount2, setns,
/// pivot_root, unshare, kexec_load, finit_module, init_module,
/// delete_module, bpf, perf_event_open, userfaultfd, open_by_handle_at,
/// name_to_handle_at, keyctl, reboot) and lets every other call run.
pub proof fn lemma_aarch64_policy(nr: u32)
    requires
        nr < 0x4000_0000,
    ensures
        (nr == 221 || nr == 281 || nr == 117 || nr == 40 || nr == 39 || nr == 268 || nr == 41 || nr == 97 || nr
            == 104 || nr == 273 || nr == 105 || nr == 106 || nr == 280 || nr == 241 || nr == 282 || nr == 265
            || nr == 264 || nr == 219 || nr == 142) ==> bpf_eval(
            seccomp_program(SeccompArch::Aarch64),
            0,
            0,
            nr,
            SECCOMP_ARCH_AARCH64,
        ) == Some(RET_EPERM),
        !(nr == 221 || nr == 281 || nr == 117 || nr == 40 || nr == 39 || nr == 268 || nr == 41 || nr == 97 || nr
            == 104 || nr == 273 || nr == 105 || nr == 106 || nr == 280 || nr == 241 || nr == 282 || nr == 265
            || nr == 264 || nr == 219 || nr == 142) ==> bpf_eval(
            seccomp_program(SeccompArch::Aarch64),
            0,
            0,
            nr,
            SECCOMP_ARCH_AARCH64,
        ) == Some(SECCOMP_RET_ALLOW),
{
    lemma_seccomp_filter_decides(SeccompArch::Aarch64, nr, SECCOMP_ARCH_AARCH64);
    lemma_below_x32_bit(nr);
    let s = denied_syscalls_spec(SeccompArch::Aarch64);
    assert(s.len() == 19);
    assert(s[0] == 221 && s[1] == 281 && s[2] == 117 && s[3] == 40 && s[4] == 39 && s[5] == 268 && s[6] == 41
        && s[7] == 97 && s[8] == 104 && s[9] == 273 && s[10] == 105 && s[11] == 106 && s[12] == 280 && s[13]
        == 241 && s[14] == 282 && s[15] == 265 && s[16] == 264 && s[17] == 219 && s[18] == 142);
    assert(s.contains(nr) <==> (nr == 221 || nr == 281 || nr == 117 || nr == 40 || nr == 39 || nr == 268 || nr
        == 41 || nr == 97 || nr == 104 || nr == 273 || nr == 105 || nr == 106 || nr == 280 || nr == 241 || nr
        == 282 || nr == 265 || nr == 264 || nr == 219 || nr == 142));
}

} // verus!
