//! Startup configuration: the watched root, the remote-mount flag and the
//! worker pool size, built from raw setting texts. Reading the process
//! environment is the caller's concern; this module fixes what each setting
//! means.

use vstd::prelude::*;
use vstd::string::StringExecFns;
use crate::text::{dec_val, is_numeral, numeral_body, parse_usize, seq_fold_eq, str_fold_eq};

verus! {

/// The configuration consumed once at startup.
pub struct AppConfig {
    /// The root directory watched for new or changed container files.
    pub watch_dir: String,
    /// Whether the root is a remote (SMB) mount, where live notifications are
    /// unreliable and the polling fallback is used.
    pub is_smb: bool,
    /// The size of the worker pool that bounds concurrent jobs.
    pub threads: usize,
}

/// Relies on `num_cpus::get`: the number of available logical CPUs of the
/// current system, which is always at least 1.
#[verifier::external_body]
fn cpu_count() -> (n: usize)
    ensures
        1 <= n,
{
    num_cpus::get()
}

/// The worker count used when no explicit count is given: half the logical
/// CPUs, and at least one.
fn default_threads() -> (n: usize)
    ensures
        1 <= n,
{
    let half = cpu_count() / 2;
    if half < 1 {
        1
    } else {
        half
    }
}

/// Build the startup configuration from the raw setting texts, each `None`
/// when the setting is unset: the watched root defaults to the built-in
/// location; the remote-mount flag is the text `true`, compared regardless
/// of ASCII case; the worker count is parsed as a decimal numeral and falls
/// back to half the CPUs (at least one) when unset or malformed.
pub fn config_from_settings(
    watch_dir: Option<String>,
    is_smb: Option<String>,
    threads: Option<String>,
) -> (c: AppConfig)
    ensures
        c.watch_dir@ == match watch_dir {
            Some(w) => w@,
            None => "/mnt/smb/Test-transcoding"@,
        },
        c.is_smb == match is_smb {
            Some(f) => seq_fold_eq(f@, "true"@),
            None => false,
        },
        match threads {
            Some(t) => {
                if is_numeral(t@) && dec_val(numeral_body(t@)) <= usize::MAX {
                    c.threads == dec_val(numeral_body(t@))
                } else {
                    1 <= c.threads
                }
            },
            None => 1 <= c.threads,
        },
{
    let wd = match watch_dir {
        Some(w) => w,
        None => String::from_str("/mnt/smb/Test-transcoding"),
    };
    let smb = match is_smb {
        Some(f) => str_fold_eq(f.as_str(), "true"),
        None => false,
    };
    let th = match threads {
        Some(t) => match parse_usize(t.as_str()) {
            Some(n) => n,
            None => default_threads(),
        },
        None => default_threads(),
    };
    AppConfig { watch_dir: wd, is_smb: smb, threads: th }
}

} // verus!
