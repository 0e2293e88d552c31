//! The capability prober's decision logic: which acceleration path the pass
//! requests from the external transcoder, from an override flag and from what
//! the host's device files or probe invocations reported. Listing device
//! directories and running probe invocations is the caller's I/O.

use vstd::prelude::*;
use crate::text::{
    contains_fold, contains_seq, is_prefix, opt_text_view, str_contains, str_contains_fold,
    str_starts_with,
};

verus! {

/// The acceleration path requested from the external transcoder; chosen once
/// per pass and held constant for every job in it.
#[derive(Clone, Copy, PartialEq, Eq, Structural, Debug)]
pub enum Capability {
    /// Host-init GPU encode through the primary (CUDA) path.
    Nvenc,
    /// GPU encode through the secondary (VAAPI) path.
    Vaapi,
    /// Plain software encode.
    Cpu,
}

impl Capability {
    /// The textual token of a capability.
    pub open spec fn spec_token(self) -> Seq<char> {
        match self {
            Capability::Nvenc => "nvenc"@,
            Capability::Vaapi => "vaapi"@,
            Capability::Cpu => "cpu"@,
        }
    }

    /// The textual token of a capability, computed.
    pub fn token(&self) -> (r: &'static str)
        ensures
            r@ == self.spec_token(),
    {
        match self {
            Capability::Nvenc => "nvenc",
            Capability::Vaapi => "vaapi",
            Capability::Cpu => "cpu",
        }
    }
}

/// A device-directory entry that signals a VAAPI-capable GPU.
pub open spec fn vaapi_device_name(n: Seq<char>) -> bool {
    is_prefix(n, "card"@) || is_prefix(n, "renderD"@)
}

/// A device-directory entry that signals an NVIDIA GPU.
pub open spec fn nvidia_device_name(n: Seq<char>) -> bool {
    is_prefix(n, "nvidia"@)
}

/// The device-file policy: the override always wins with software; otherwise
/// a render-node entry selects the secondary path, an NVIDIA device entry the
/// primary path, and a bare host gets software.
pub open spec fn spec_select_from_devices(
    force_software: bool,
    dri: Seq<Seq<char>>,
    dev: Seq<Seq<char>>,
) -> Capability {
    if force_software {
        Capability::Cpu
    } else if exists|i: int| 0 <= i < dri.len() && vaapi_device_name(#[trigger] dri[i]) {
        Capability::Vaapi
    } else if exists|i: int| 0 <= i < dev.len() && nvidia_device_name(#[trigger] dev[i]) {
        Capability::Nvenc
    } else {
        Capability::Cpu
    }
}

/// Select a capability from the names found in the graphics and general
/// device directories. The override signal always forces software.
pub fn select_from_devices(
    force_software: bool,
    dri_entries: &Vec<String>,
    dev_entries: &Vec<String>,
) -> (r: Capability)
    ensures
        r == spec_select_from_devices(
            force_software,
            dri_entries.deep_view(),
            dev_entries.deep_view(),
        ),
        force_software ==> r == Capability::Cpu,
{
    if force_software {
        return Capability::Cpu;
    }
    let ghost dri = dri_entries.deep_view();
    let ghost dev = dev_entries.deep_view();
    let mut i: usize = 0;
    while i < dri_entries.len()
        invariant
            !force_software,
            dri == dri_entries.deep_view(),
            dri.len() == dri_entries.len(),
            i <= dri_entries.len(),
            forall|k: int| 0 <= k < i ==> !vaapi_device_name(#[trigger] dri[k]),
        decreases dri_entries.len() - i,
    {
        assert(dri[i as int] == dri_entries@[i as int]@);
        if str_starts_with(dri_entries[i].as_str(), "card") || str_starts_with(
            dri_entries[i].as_str(),
            "renderD",
        ) {
            assert(vaapi_device_name(dri[i as int]));
            return Capability::Vaapi;
        }
        i += 1;
    }
    let mut j: usize = 0;
    while j < dev_entries.len()
        invariant
            !force_software,
            dri == dri_entries.deep_view(),
            dev == dev_entries.deep_view(),
            dev.len() == dev_entries.len(),
            j <= dev_entries.len(),
            forall|k: int| 0 <= k < dri.len() ==> !vaapi_device_name(#[trigger] dri[k]),
            forall|k: int| 0 <= k < j ==> !nvidia_device_name(#[trigger] dev[k]),
        decreases dev_entries.len() - j,
    {
        assert(dev[j as int] == dev_entries@[j as int]@);
        if str_starts_with(dev_entries[j].as_str(), "nvidia") {
            assert(nvidia_device_name(dev[j as int]));
            return Capability::Nvenc;
        }
        j += 1;
    }
    Capability::Cpu
}

/// The diagnostic of a primary-path probe confirms acceleration when it names
/// a CUDA device (matched regardless of ASCII case, as the prober lowercases
/// the log before searching).
pub open spec fn nvidia_probe_confirms(d: Option<Seq<char>>) -> bool {
    d matches Some(t) && contains_fold(t, "cuda device"@)
}

/// The diagnostic of a secondary-path probe confirms acceleration when it
/// names a render-node device path or the acceleration itself.
pub open spec fn vaapi_probe_confirms(d: Option<Seq<char>>) -> bool {
    d matches Some(t) && (contains_seq(t, "/dev/dri/renderD"@) || contains_fold(t, "vaapi"@))
}

/// The probe-invocation policy: the override always wins with software;
/// otherwise the primary probe's diagnostic is inspected, then the secondary
/// probe's, and software is the fallback. A probe that failed to execute
/// (`None`) is no match, never an error.
pub open spec fn spec_select_from_probes(
    force_software: bool,
    nvidia_diag: Option<Seq<char>>,
    vaapi_diag: Option<Seq<char>>,
) -> Capability {
    if force_software {
        Capability::Cpu
    } else if nvidia_probe_confirms(nvidia_diag) {
        Capability::Nvenc
    } else if vaapi_probe_confirms(vaapi_diag) {
        Capability::Vaapi
    } else {
        Capability::Cpu
    }
}

/// Select a capability from the diagnostics of the two probe invocations.
/// The override signal always forces software.
pub fn select_from_probes(
    force_software: bool,
    nvidia_diag: Option<&str>,
    vaapi_diag: Option<&str>,
) -> (r: Capability)
    ensures
        r == spec_select_from_probes(
            force_software,
            opt_text_view(nvidia_diag),
            opt_text_view(vaapi_diag),
        ),
        force_software ==> r == Capability::Cpu,
{
    if force_software {
        return Capability::Cpu;
    }
    if let Some(d) = nvidia_diag {
        if str_contains_fold(d, "cuda device") {
            return Capability::Nvenc;
        }
    }
    if let Some(d) = vaapi_diag {
        if str_contains(d, "/dev/dri/renderD") || str_contains_fold(d, "vaapi") {
            return Capability::Vaapi;
        }
    }
    Capability::Cpu
}

} // verus!
