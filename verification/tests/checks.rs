use std::collections::{HashMap, HashSet};

use kmp_boot_check::{
    exit_code, json_output, parse_policy_config, run_checks, CheckResult, InitrdPolicy, Kernel,
    KmpModule, Severity, SystemProbe,
};
use kmp_boot_check::rpm::parse_kmod_provide;

#[derive(Default)]
struct FakeProbe {
    kernels: Vec<Kernel>,
    kmp_modules: Vec<KmpModule>,
    running: String,
    root_fstype: String,
    has_packages: bool,
    modules: HashSet<(String, String)>,
    initrd: HashMap<(String, String), Option<bool>>,
}

impl FakeProbe {
    fn new() -> Self {
        Self {
            running: "1-default".to_string(),
            root_fstype: "btrfs".to_string(),
            ..Self::default()
        }
    }
}

impl SystemProbe for FakeProbe {
    fn installed_kernels(&self) -> Vec<Kernel> {
        self.kernels.clone()
    }

    fn installed_kmp_modules(&self) -> Vec<KmpModule> {
        self.kmp_modules.clone()
    }

    fn running_kernel(&self) -> String {
        self.running.clone()
    }

    fn root_fstype(&self) -> String {
        self.root_fstype.clone()
    }

    fn has_installed_package(&self, _patterns: &[String]) -> bool {
        self.has_packages
    }

    fn has_module(&self, kernel: &str, module: &str) -> bool {
        self.modules
            .contains(&(kernel.to_string(), module.to_string()))
    }

    fn initrd_has_module(&self, kernel: &str, module: &str) -> Option<bool> {
        self.initrd
            .get(&(kernel.to_string(), module.to_string()))
            .copied()
            .flatten()
    }
}

fn kernel(uname: &str, install_time: u64) -> Kernel {
    Kernel {
        uname: uname.to_string(),
        package: String::new(),
        install_time,
        running: false,
        latest: false,
    }
}

#[test]
fn nvidia_missing_on_latest_is_warning() {
    let mut probe = FakeProbe::new();
    probe.has_packages = true;
    probe.kernels = vec![kernel("1-default", 1), kernel("2-default", 2)];
    probe
        .modules
        .insert(("1-default".to_string(), "nvidia".to_string()));

    let result = run_checks(&probe, None, Vec::new());

    assert_eq!(result.severity(), Severity::Warning);
    assert_eq!(exit_code(&result, false), 1);
    assert_eq!(
        result
            .kernels
            .iter()
            .find(|kernel| kernel.kernel.latest)
            .unwrap()
            .kernel
            .uname,
        "2-default"
    );
}

#[test]
fn bcachefs_missing_initrd_is_boot_risk() {
    let mut probe = FakeProbe::new();
    probe.root_fstype = "bcachefs".to_string();
    probe.kernels = vec![kernel("2-default", 2)];
    probe
        .modules
        .insert(("2-default".to_string(), "bcachefs".to_string()));
    probe.initrd.insert(
        ("2-default".to_string(), "bcachefs".to_string()),
        Some(false),
    );

    let result = run_checks(&probe, None, Vec::new());

    assert_eq!(result.severity(), Severity::BootRisk);
    assert_eq!(exit_code(&result, true), 2);
}

#[test]
fn requested_unknown_kernel_is_unknown() {
    let mut probe = FakeProbe::new();
    probe.kernels = vec![kernel("1-default", 1)];

    let result = run_checks(&probe, Some("2-default"), Vec::new());

    assert_eq!(result.severity(), Severity::Unknown);
    assert_eq!(exit_code(&result, true), 3);
}

#[test]
fn config_package_detection() {
    let mut probe = FakeProbe::new();
    probe.has_packages = true;
    let policies = parse_policy_config(
        r#"
        [module "v4l2loopback"]
        detect = package:v4l2loopback-kmp-*
        module = v4l2loopback
        initrd = optional
        severity = warning
        "#,
        &probe,
    );

    assert_eq!(policies.len(), 1);
    assert!(policies[0].enabled);
    assert_eq!(policies[0].module, "v4l2loopback");
    assert_eq!(policies[0].severity, Severity::Warning);
}

#[test]
fn generic_kmp_modules_are_warning_policies() {
    let mut probe = FakeProbe::new();
    probe.kernels = vec![kernel("1-default", 1)];
    probe.kmp_modules = vec![KmpModule {
        package: "v4l2loopback-kmp-default-1-1.x86_64".to_string(),
        module: "v4l2loopback".to_string(),
    }];

    let result = run_checks(&probe, None, Vec::new());

    assert_eq!(result.severity(), Severity::Warning);
    assert_eq!(
        result.kernels[0].module_results[0].policy.name,
        "kmp:v4l2loopback"
    );
}

#[test]
fn generic_kmp_modules_skip_non_important_kernels() {
    let mut probe = FakeProbe::new();
    probe.running = "2-default".to_string();
    probe.kernels = vec![kernel("1-default", 1), kernel("2-default", 2)];
    probe.kmp_modules = vec![KmpModule {
        package: "v4l2loopback-kmp-default-1-1.x86_64".to_string(),
        module: "v4l2loopback".to_string(),
    }];
    probe
        .modules
        .insert(("2-default".to_string(), "v4l2loopback".to_string()));

    let result = run_checks(&probe, None, Vec::new());

    assert!(result.kernels[0].module_results.is_empty());
    assert_eq!(result.severity(), Severity::Okay);
}

#[test]
fn parse_kmod_provide_strips_suffix() {
    assert_eq!(
        parse_kmod_provide("kmod(nvidia_drm.ko)"),
        Some("nvidia_drm".to_string())
    );
}

#[test]
fn json_escapes_strings() {
    let result = CheckResult {
        kernels: Vec::new(),
        diagnostics: vec!["quote \" newline\n".to_string()],
    };

    assert!(json_output(&result).contains("quote \\\" newline\\n"));
}

#[test]
fn initrd_policy_parser_accepts_required() {
    let probe = FakeProbe::new();
    let policies = parse_policy_config(
        r#"
        [module "zfs"]
        detect = never
        initrd = required
        severity = boot-risk
        "#,
        &probe,
    );

    assert_eq!(policies[0].initrd, InitrdPolicy::Required);
}
