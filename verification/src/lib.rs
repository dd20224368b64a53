//! Verified core logic of the Bumble Bee browser shell: the pre-execution
//! source gate, the source-language front end, download bookkeeping,
//! kernel-hardening policies and the cookie-lifetime policy.

pub mod execution_sandbox;
pub mod text;
pub mod code_security_scanner;
pub mod language_engine;
pub mod typescript;
pub mod numbers;
pub mod infra;
pub mod downloads;
pub mod download_registry;
pub mod transfer;
pub mod linux_security;
pub mod process_policy;
pub mod cookie_policy;
pub mod checksum;
