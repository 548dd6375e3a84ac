//! What is reported about the machine.

use vstd::prelude::*;
use crate::text::{chars_of, string_of};

verus! {

/// What the recognizer computes on.
#[derive(Clone, Copy, Debug, PartialEq, Eq, Structural)]
pub enum Backend {
    Cuda,
    Vulkan,
    Rocm,
    Cpu,
}

impl Backend {
    /// The name of the backend as it is shown.
    pub open spec fn spec_label(self) -> Seq<char> {
        match self {
            Backend::Cuda => "CUDA (NVIDIA)"@,
            Backend::Vulkan => "Vulkan"@,
            Backend::Rocm => "ROCm (AMD)"@,
            Backend::Cpu => "CPU"@,
        }
    }

    /// The name of the backend as it is shown.
    pub fn label(&self) -> (name: String)
        ensures
            name@ == self.spec_label(),
    {
        let name = match self {
            Backend::Cuda => "CUDA (NVIDIA)",
            Backend::Vulkan => "Vulkan",
            Backend::Rocm => "ROCm (AMD)",
            Backend::Cpu => "CPU",
        };
        string_of(&chars_of(name))
    }
}

/// The machine's memory in bytes, its processors, the graphics hardware
/// found on it, and the backend in use.
#[derive(Clone, Debug, PartialEq, Eq)]
pub struct SystemStats {
    pub total_memory: u64,
    pub free_memory: u64,
    pub cpu_cores: usize,
    pub has_nvidia: bool,
    pub has_amd: bool,
    pub backend: String,
}

impl SystemStats {
    /// The report for a machine as measured.
    pub fn new(
        total_memory: u64,
        free_memory: u64,
        cpu_cores: usize,
        has_nvidia: bool,
        has_amd: bool,
        backend: Backend,
    ) -> (stats: SystemStats)
        ensures
            stats.total_memory == total_memory,
            stats.free_memory == free_memory,
            stats.cpu_cores == cpu_cores,
            stats.has_nvidia == has_nvidia,
            stats.has_amd == has_amd,
            stats.backend@ == backend.spec_label(),
    {
        SystemStats {
            total_memory,
            free_memory,
            cpu_cores,
            has_nvidia,
            has_amd,
            backend: backend.label(),
        }
    }
}

} // verus!
