//! Checks whether installed kernels carry the kernel modules that the next
//! boot needs: module policies, per-kernel checks, and the reports built
//! from them.

pub mod check;
pub mod cli;
pub mod config;
pub mod json;
pub mod model;
pub mod plugin;
pub mod policy;
pub mod probe;
pub mod report;
pub mod rpm;
pub mod text;

pub use check::run_checks;
pub use config::parse_policy_config;
pub use model::{
    exit_code, CheckResult, InitrdPolicy, Kernel, KernelResult, KmpModule, ModulePolicy,
    ModuleResult, Severity,
};
pub use policy::{builtin_policies, generic_kmp_policies};
pub use probe::SystemProbe;
pub use report::{human_output, json_output};
