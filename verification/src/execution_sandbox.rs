//! Execution-sandbox policy applied before untrusted source reaches the
//! script engine: cheap, deterministic limits on size, line length and
//! bracket nesting.

use vstd::prelude::*;
use vstd::string::StringSliceAdditionalSpecFns;

verus! {

/// Largest accepted source, in bytes.
pub const MAX_SOURCE_BYTES: usize = 2097152;

/// Largest accepted line, in bytes (line terminator excluded).
pub const MAX_LINE_BYTES: usize = 262144;

/// Largest accepted bracket nesting depth.
pub const MAX_NESTING_HINT: usize = 512;

pub const SIZE_LIMIT_REASON: &'static str = "Source exceeds the execution sandbox size limit";

pub const LINE_LIMIT_REASON: &'static str = "A source line exceeds the execution sandbox line limit";

pub const NESTING_LIMIT_REASON: &'static str = "Source nesting exceeds the execution sandbox limit";

#[derive(Clone, Copy, Debug, PartialEq, Eq)]
pub enum SandboxAction {
    Allow,
    Block,
}

#[derive(Clone, Copy, Debug, PartialEq, Eq)]
pub struct SandboxResult {
    pub action: SandboxAction,
    pub reason: Option<&'static str>,
}

pub open spec fn is_opener(b: u8) -> bool {
    b == 0x7b || b == 0x28 || b == 0x5b
}

pub open spec fn is_closer(b: u8) -> bool {
    b == 0x7d || b == 0x29 || b == 0x5d
}

/// Bracket depth after the first `k` bytes; a closer at depth 0 is ignored.
pub open spec fn nesting_depth(bytes: Seq<u8>, k: int) -> nat
    decreases k,
{
    if k <= 0 {
        0
    } else {
        let d = nesting_depth(bytes, k - 1);
        let b = bytes[k - 1];
        if is_opener(b) {
            d + 1
        } else if is_closer(b) {
            if d == 0 { 0 } else { (d - 1) as nat }
        } else {
            d
        }
    }
}

pub open spec fn nesting_exceeded(bytes: Seq<u8>) -> bool {
    exists|k: int| 0 < k <= bytes.len() && nesting_depth(bytes, k) > MAX_NESTING_HINT
}

/// `bytes[s..e]` is one line as `str::lines` splits it: delimited by the
/// start of input or a `\n` before it, and the end of input or a `\n` after.
pub open spec fn is_line(bytes: Seq<u8>, s: int, e: int) -> bool {
    &&& 0 <= s <= e <= bytes.len()
    &&& (s == 0 || bytes[s - 1] == 0x0a)
    &&& (e == bytes.len() || bytes[e] == 0x0a)
    &&& forall|i: int| s <= i < e ==> bytes[i] != 0x0a
}

/// Length of that line once a `\r` before its `\n` terminator is dropped.
pub open spec fn line_len(bytes: Seq<u8>, s: int, e: int) -> int {
    if e < bytes.len() && s < e && bytes[e - 1] == 0x0d {
        e - s - 1
    } else {
        e - s
    }
}

pub open spec fn has_long_line(bytes: Seq<u8>) -> bool {
    exists|s: int, e: int| is_line(bytes, s, e) && line_len(bytes, s, e) > MAX_LINE_BYTES
}

pub open spec fn blocked_result(reason: &'static str) -> SandboxResult {
    SandboxResult { action: SandboxAction::Block, reason: Some(reason) }
}

/// The verdict of the preflight on the UTF-8 bytes of a source.
pub open spec fn preflight_spec(bytes: Seq<u8>) -> SandboxResult {
    if bytes.len() > MAX_SOURCE_BYTES {
        blocked_result(SIZE_LIMIT_REASON)
    } else if has_long_line(bytes) {
        blocked_result(LINE_LIMIT_REASON)
    } else if nesting_exceeded(bytes) {
        blocked_result(NESTING_LIMIT_REASON)
    } else {
        SandboxResult { action: SandboxAction::Allow, reason: None }
    }
}

/// A blocking verdict with the given reason.
pub fn blocked(reason: &'static str) -> (r: SandboxResult)
    ensures
        r == blocked_result(reason),
{
    SandboxResult { action: SandboxAction::Block, reason: Some(reason) }
}

proof fn lemma_nesting_depth_bounded(bytes: Seq<u8>, k: int)
    requires
        0 <= k,
    ensures
        nesting_depth(bytes, k) <= k,
    decreases k,
{
    if k > 0 {
        lemma_nesting_depth_bounded(bytes, k - 1);
    }
}

/// Whether some line of `bytes` is longer than [`MAX_LINE_BYTES`].
fn contains_long_line(bytes: &[u8]) -> (r: bool)
    ensures
        r == has_long_line(bytes@),
{
    let n = bytes.len();
    let mut start: usize = 0;
    let mut i: usize = 0;
    while i < n
        invariant
            n == bytes@.len(),
            start <= i <= n,
            start == 0 || bytes@[start - 1] == 0x0a,
            forall|j: int| start <= j < i ==> bytes@[j] != 0x0a,
            forall|s: int, e: int|
                is_line(bytes@, s, e) && e < i ==> line_len(bytes@, s, e) <= MAX_LINE_BYTES,
        decreases n - i,
    {
        if bytes[i] == 0x0a {
            let mut len: usize = i - start;
            if i > start && bytes[i - 1] == 0x0d {
                len = len - 1;
            }
            assert(is_line(bytes@, start as int, i as int));
            assert(len == line_len(bytes@, start as int, i as int));
            if len > MAX_LINE_BYTES {
                return true;
            }
            assert forall|s: int, e: int|
                is_line(bytes@, s, e) && e < i + 1 implies line_len(bytes@, s, e) <= MAX_LINE_BYTES by {
                if e == i {
                    if s < start {
                        assert(bytes@[start - 1] == 0x0a);
                    } else if s > start {
                        assert(bytes@[s - 1] == 0x0a);
                    }
                }
            }
            start = i + 1;
        }
        i = i + 1;
    }
    let len: usize = n - start;
    assert(is_line(bytes@, start as int, n as int));
    assert(len == line_len(bytes@, start as int, n as int));
    if len > MAX_LINE_BYTES {
        return true;
    }
    assert forall|s: int, e: int| is_line(bytes@, s, e) implies line_len(bytes@, s, e) <= MAX_LINE_BYTES by {
        if e == n {
            if s < start {
                assert(bytes@[start - 1] == 0x0a);
            } else if s > start {
                assert(bytes@[s - 1] == 0x0a);
            }
        }
    }
    false
}

/// Whether the bracket depth of `bytes` ever exceeds [`MAX_NESTING_HINT`].
fn exceeds_nesting_limit(bytes: &[u8]) -> (r: bool)
    ensures
        r == nesting_exceeded(bytes@),
{
    let n = bytes.len();
    let mut depth: usize = 0;
    let mut i: usize = 0;
    while i < n
        invariant
            n == bytes@.len(),
            i <= n,
            depth == nesting_depth(bytes@, i as int),
            forall|k: int| 0 < k <= i ==> nesting_depth(bytes@, k) <= MAX_NESTING_HINT,
        decreases n - i,
    {
        proof {
            lemma_nesting_depth_bounded(bytes@, i as int);
        }
        let b = bytes[i];
        if b == 0x7b || b == 0x28 || b == 0x5b {
            depth = depth + 1;
            if depth > MAX_NESTING_HINT {
                assert(nesting_depth(bytes@, i + 1) > MAX_NESTING_HINT);
                return true;
            }
        } else if b == 0x7d || b == 0x29 || b == 0x5d {
            if depth > 0 {
                depth = depth - 1;
            }
        }
        i = i + 1;
    }
    false
}

/// Enforce the size, line-length and nesting limits on `source`, in that
/// order; the first limit exceeded decides the reason.
pub fn preflight(source: &str) -> (r: SandboxResult)
    ensures
        r == preflight_spec(source.spec_bytes()),
{
    let bytes = source.as_bytes();
    if bytes.len() > MAX_SOURCE_BYTES {
        return blocked(SIZE_LIMIT_REASON);
    }
    if contains_long_line(bytes) {
        return blocked(LINE_LIMIT_REASON);
    }
    if exceeds_nesting_limit(bytes) {
        return blocked(NESTING_LIMIT_REASON);
    }
    SandboxResult { action: SandboxAction::Allow, reason: None }
}

/// A source the preflight allows is within every limit: its size, each of
/// its lines, and its bracket nesting.
pub proof fn lemma_allowed_within_limits(bytes: Seq<u8>)
    requires
        preflight_spec(bytes).action == SandboxAction::Allow,
    ensures
        bytes.len() <= MAX_SOURCE_BYTES,
        forall|s: int, e: int| is_line(bytes, s, e) ==> line_len(bytes, s, e) <= MAX_LINE_BYTES,
        forall|k: int| 0 < k <= bytes.len() ==> nesting_depth(bytes, k) <= MAX_NESTING_HINT,
{
}

} // verus!
