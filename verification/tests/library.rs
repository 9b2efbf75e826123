use std::cell::RefCell;
use std::collections::HashSet;

use kmp_boot_check::check::boot_entry_release;
use kmp_boot_check::cli::parse_args;
use kmp_boot_check::config::{
    detect_policy, detect_with, is_conf_file, parse_initrd_policy, parse_severity,
    select_conf_files,
};
use kmp_boot_check::policy::{boot_mount_fstypes, generic_kmp_policies_for};
use kmp_boot_check::plugin::{ack, enomethod, plugin_step, PluginStep};
use kmp_boot_check::report::kernel_header;
use kmp_boot_check::rpm::{
    add_kernel_provides, add_kmp_provides, first_line_trimmed, has_content,
    initrd_lists_module, module_needles, parse_kernel_packages, parse_kmod_provide,
    parse_package_names, parse_u64, sort_kernels, sort_kmp_modules, trimmed_output,
};
use kmp_boot_check::{
    builtin_policies, exit_code, generic_kmp_policies, human_output, json_output,
    parse_policy_config, run_checks, CheckResult, InitrdPolicy, Kernel, KernelResult, KmpModule,
    ModulePolicy, ModuleResult, Severity, SystemProbe,
};

struct Probe {
    kernels: Vec<Kernel>,
    kmp_modules: Vec<KmpModule>,
    running: String,
    root_fstype: String,
    has_packages: bool,
    modules: HashSet<(String, String)>,
    initrd: Option<bool>,
    fstab: String,
    boot_entry: Option<String>,
    asked_patterns: RefCell<Vec<Vec<String>>>,
}

impl Probe {
    fn new() -> Self {
        Probe {
            kernels: Vec::new(),
            kmp_modules: Vec::new(),
            running: "1-default".to_string(),
            root_fstype: "btrfs".to_string(),
            has_packages: false,
            modules: HashSet::new(),
            initrd: None,
            fstab: String::new(),
            boot_entry: None,
            asked_patterns: RefCell::new(Vec::new()),
        }
    }
}

impl SystemProbe for Probe {
    fn installed_kernels(&self) -> Vec<Kernel> {
        self.kernels.clone()
    }
    fn installed_kmp_modules(&self) -> Vec<KmpModule> {
        self.kmp_modules.clone()
    }
    fn running_kernel(&self) -> String {
        self.running.clone()
    }
    fn root_fstype(&self) -> String {
        self.root_fstype.clone()
    }
    fn has_installed_package(&self, patterns: &[String]) -> bool {
        self.asked_patterns.borrow_mut().push(patterns.to_vec());
        self.has_packages
    }
    fn has_module(&self, kernel: &str, module: &str) -> bool {
        self.modules.contains(&(kernel.to_string(), module.to_string()))
    }
    fn initrd_has_module(&self, _kernel: &str, _module: &str) -> Option<bool> {
        self.initrd
    }
    fn fstab(&self) -> String {
        self.fstab.clone()
    }
    fn default_boot_entry(&self) -> Option<String> {
        self.boot_entry.clone()
    }
}

fn kernel(uname: &str, install_time: u64) -> Kernel {
    Kernel {
        uname: uname.to_string(),
        package: format!("kernel-{uname}"),
        install_time,
        running: false,
        latest: false,
    }
}

fn policy(module: &str, severity: Severity, initrd: InitrdPolicy) -> ModulePolicy {
    ModulePolicy {
        name: module.to_string(),
        module: module.to_string(),
        enabled: true,
        initrd,
        severity,
        reason: "configured".to_string(),
        important_kernels_only: false,
        next_boot_only: false,
    }
}

#[test]
fn severity_names() {
    assert_eq!(Severity::Okay.status(), "ok");
    assert_eq!(Severity::Warning.status(), "warn");
    assert_eq!(Severity::BootRisk.status(), "risk");
    assert_eq!(Severity::Unknown.status(), "unknown");
    assert_eq!(Severity::Okay.label(), "OK");
    assert_eq!(Severity::Warning.label(), "WARN");
    assert_eq!(Severity::BootRisk.label(), "RISK");
    assert_eq!(Severity::Unknown.label(), "UNKNOWN");
}

#[test]
fn exit_codes_follow_severity() {
    let empty = CheckResult { kernels: Vec::new(), diagnostics: Vec::new() };
    assert_eq!(empty.severity(), Severity::Okay);
    assert_eq!(exit_code(&empty, true), 0);
    let unknown = CheckResult { kernels: Vec::new(), diagnostics: vec!["x".to_string()] };
    assert_eq!(unknown.severity(), Severity::Unknown);
    assert_eq!(exit_code(&unknown, false), 3);
    assert_eq!(exit_code(&unknown, true), 3);
}

#[test]
fn kernel_severity_is_the_greatest_module_severity() {
    let p = policy("a", Severity::Warning, InitrdPolicy::Optional);
    let results = vec![
        ModuleResult { policy: p.clone(), module_found: false, initrd_found: None, severity: Severity::Warning, message: "m".to_string() },
        ModuleResult { policy: p.clone(), module_found: false, initrd_found: None, severity: Severity::BootRisk, message: "m".to_string() },
        ModuleResult { policy: p, module_found: true, initrd_found: None, severity: Severity::Okay, message: "ok".to_string() },
    ];
    let k = KernelResult { kernel: kernel("1", 1), module_results: results };
    assert_eq!(k.severity(), Severity::BootRisk);
    let result = CheckResult { kernels: vec![k], diagnostics: Vec::new() };
    assert_eq!(exit_code(&result, false), 2);
}

#[test]
fn json_escapes_control_characters() {
    let result = CheckResult {
        kernels: Vec::new(),
        diagnostics: vec!["a\u{1}b\\c\td\re\u{7f}".to_string()],
    };
    assert_eq!(
        json_output(&result),
        "{\"severity\":\"unknown\",\"diagnostics\":[\"a\\u0001b\\\\c\\td\\re\\u007f\"],\"kernels\":[]}"
    );
}

#[test]
fn json_and_human_reports_have_fixed_shapes() {
    let mut probe = Probe::new();
    probe.root_fstype = "zfs".to_string();
    probe.kernels = vec![kernel("1-default", 5)];
    probe.modules.insert(("1-default".to_string(), "zfs".to_string()));
    probe.initrd = Some(true);
    let result = run_checks(&probe, None, Vec::new());
    assert_eq!(
        json_output(&result),
        "{\"severity\":\"ok\",\"diagnostics\":[],\"kernels\":[{\"uname\":\"1-default\",\"package\":\"kernel-1-default\",\"running\":true,\"latest\":true,\"severity\":\"ok\",\"modules\":[{\"name\":\"zfs\",\"module\":\"zfs\",\"severity\":\"ok\",\"message\":\"ok\",\"module_found\":true,\"initrd_found\":true,\"reason\":\"/ is mounted as zfs\"}]}]}"
    );
    assert_eq!(
        human_output(&result),
        "KMP boot check\nOK: kernel 1-default (running, latest)\n  OK: zfs: ok; module=yes; initrd=yes; reason=/ is mounted as zfs\n"
    );
}

#[test]
fn human_report_without_policies() {
    let mut probe = Probe::new();
    probe.kernels = vec![kernel("1-default", 1), kernel("2-default", 2)];
    let result = run_checks(&probe, None, Vec::new());
    assert_eq!(
        human_output(&result),
        "KMP boot check\nUNKNOWN: no enabled module policies detected\nOK: kernel 1-default (running)\n  OK: no module policy applies\nOK: kernel 2-default (latest)\n  OK: no module policy applies\n"
    );
    assert_eq!(exit_code(&result, true), 3);
}

#[test]
fn kernel_header_without_marks() {
    let k = KernelResult { kernel: kernel("3-default", 3), module_results: Vec::new() };
    assert_eq!(kernel_header(&k), "OK: kernel 3-default");
}

#[test]
fn missing_initrd_inspection_is_unknown() {
    let mut probe = Probe::new();
    probe.root_fstype = "bcachefs".to_string();
    probe.kernels = vec![kernel("1-default", 1)];
    probe.modules.insert(("1-default".to_string(), "bcachefs".to_string()));
    probe.initrd = None;
    let result = run_checks(&probe, None, Vec::new());
    let m = &result.kernels[0].module_results[0];
    assert_eq!(m.severity, Severity::Unknown);
    assert_eq!(m.message, "could not inspect initrd for bcachefs");
    assert_eq!(m.initrd_found, None);
}

#[test]
fn missing_module_uses_policy_severity() {
    let mut probe = Probe::new();
    probe.kernels = vec![kernel("1-default", 1)];
    let extra = vec![policy("zzz", Severity::BootRisk, InitrdPolicy::Required)];
    let result = run_checks(&probe, None, extra);
    let m = &result.kernels[0].module_results[0];
    assert_eq!(m.severity, Severity::BootRisk);
    assert_eq!(m.message, "missing module zzz");
    assert!(!m.module_found);
    assert_eq!(m.initrd_found, None);
}

#[test]
fn module_absent_from_initrd_message() {
    let mut probe = Probe::new();
    probe.kernels = vec![kernel("1-default", 1)];
    probe.modules.insert(("1-default".to_string(), "dm".to_string()));
    probe.initrd = Some(false);
    let extra = vec![policy("dm", Severity::Warning, InitrdPolicy::Required)];
    let result = run_checks(&probe, None, extra);
    let m = &result.kernels[0].module_results[0];
    assert_eq!(m.severity, Severity::Warning);
    assert_eq!(m.message, "module dm is not present in initrd");
    assert_eq!(m.initrd_found, Some(false));
}

#[test]
fn auto_initrd_is_reported_without_changing_severity() {
    let mut probe = Probe::new();
    probe.kernels = vec![kernel("1-default", 1)];
    probe.modules.insert(("1-default".to_string(), "gpu".to_string()));
    probe.initrd = Some(false);
    let extra = vec![policy("gpu", Severity::BootRisk, InitrdPolicy::Auto)];
    let result = run_checks(&probe, None, extra);
    let m = &result.kernels[0].module_results[0];
    assert_eq!(m.severity, Severity::Okay);
    assert_eq!(m.initrd_found, Some(false));
}

#[test]
fn latest_kernel_ties_break_on_release() {
    let mut probe = Probe::new();
    probe.running = "none".to_string();
    probe.kernels = vec![kernel("6.1-b", 7), kernel("6.1-c", 7), kernel("6.1-a", 7)];
    let result = run_checks(&probe, None, Vec::new());
    let latest: Vec<&str> = result
        .kernels
        .iter()
        .filter(|k| k.kernel.latest)
        .map(|k| k.kernel.uname.as_str())
        .collect();
    assert_eq!(latest, vec!["6.1-c"]);
    assert!(result.kernels.iter().all(|k| !k.kernel.running));
}

#[test]
fn requested_kernel_gets_important_policies() {
    let mut probe = Probe::new();
    probe.running = "2-default".to_string();
    probe.kernels = vec![kernel("1-default", 1), kernel("2-default", 2)];
    probe.kmp_modules = vec![KmpModule { package: "x-kmp".to_string(), module: "x".to_string() }];
    let result = run_checks(&probe, Some("1-default"), Vec::new());
    assert_eq!(result.kernels.len(), 1);
    assert_eq!(result.kernels[0].kernel.uname, "1-default");
    assert_eq!(result.kernels[0].module_results.len(), 1);
    assert_eq!(result.kernels[0].module_results[0].policy.name, "kmp:x");
    assert!(result.diagnostics.is_empty());
}

#[test]
fn builtin_policies_follow_root_and_nvidia() {
    let mut probe = Probe::new();
    assert!(builtin_policies(&probe).is_empty());
    probe.root_fstype = "bcachefs".to_string();
    probe.has_packages = true;
    let names: Vec<String> = builtin_policies(&probe).into_iter().map(|p| p.name).collect();
    assert_eq!(names, vec!["bcachefs".to_string(), "nvidia".to_string()]);
    let p = &builtin_policies(&probe)[0];
    assert_eq!(p.initrd, InitrdPolicy::Required);
    assert_eq!(p.severity, Severity::BootRisk);
    assert_eq!(p.reason, "/ is mounted as bcachefs");
}

#[test]
fn generic_policies_skip_covered_and_repeated_modules() {
    let mut probe = Probe::new();
    probe.kmp_modules = vec![
        KmpModule { package: "a-kmp".to_string(), module: "nvidia".to_string() },
        KmpModule { package: "b-kmp".to_string(), module: "v4l2".to_string() },
        KmpModule { package: "c-kmp".to_string(), module: "v4l2".to_string() },
    ];
    let existing = vec![policy("nvidia", Severity::Warning, InitrdPolicy::Optional)];
    let generic = generic_kmp_policies(&probe, &existing);
    assert_eq!(generic.len(), 1);
    assert_eq!(generic[0].name, "kmp:v4l2");
    assert_eq!(generic[0].reason, "KMP package is installed: b-kmp");
    assert!(generic[0].important_kernels_only);
    assert_eq!(generic[0].severity, Severity::Warning);
}

#[test]
fn config_sections_settings_and_comments() {
    let mut probe = Probe::new();
    probe.root_fstype = "xfs".to_string();
    let policies = parse_policy_config(
        "enabled = false\n# comment\n; other\n[module \"a\"]\ndetect = rootfs: xfs \ninitrd = AUTO\nseverity = BOOT_RISK\nscope = important\n[module \"b\"]\nmodule = b_mod\nenabled = no\nno equals sign\n[module \"c\"]\ndetect = sometimes\n[module \"d\"]\ndetect = never\n",
        &probe,
    );
    assert_eq!(policies.len(), 4);
    assert_eq!(policies[0].name, "a");
    assert!(policies[0].enabled);
    assert_eq!(policies[0].reason, "/ is mounted as xfs");
    assert_eq!(policies[0].initrd, InitrdPolicy::Auto);
    assert_eq!(policies[0].severity, Severity::BootRisk);
    assert!(policies[0].important_kernels_only);
    assert_eq!(policies[1].module, "b_mod");
    assert!(!policies[1].enabled);
    assert_eq!(policies[1].reason, "configured as always");
    assert!(!policies[2].enabled);
    assert_eq!(policies[2].reason, "unsupported detect value: sometimes");
    assert!(!policies[3].enabled);
    assert_eq!(policies[3].reason, "configured as never");
}

#[test]
fn detect_package_patterns_are_listed() {
    let (found, reason) = detect_with("package: a-kmp-* , ,b-*", "", true);
    assert!(found);
    assert_eq!(reason, "package pattern matched: a-kmp-*, b-*");
    let (found, _) = detect_with("rootfs:zfs", "btrfs", false);
    assert!(!found);
}

#[test]
fn config_values_are_read_leniently() {
    assert_eq!(parse_initrd_policy(" Required "), InitrdPolicy::Required);
    assert_eq!(parse_initrd_policy("maybe"), InitrdPolicy::Optional);
    assert_eq!(parse_severity("risk"), Severity::BootRisk);
    assert_eq!(parse_severity("Boot_Risk"), Severity::BootRisk);
    assert_eq!(parse_severity("unknown"), Severity::Unknown);
    assert_eq!(parse_severity("fatal"), Severity::Warning);
}

#[test]
fn kmod_provides() {
    assert_eq!(parse_kmod_provide("kmod(zfs.ko)"), Some("zfs".to_string()));
    assert_eq!(parse_kmod_provide("kmod( .ko)"), None);
    assert_eq!(parse_kmod_provide("kmod(zfs)"), None);
    assert_eq!(parse_kmod_provide("kernel-uname-r = 1"), None);
}

#[test]
fn initrd_listing_is_searched() {
    assert_eq!(
        module_needles("nvidia-drm"),
        vec![
            "/nvidia_drm.ko".to_string(),
            "/nvidia_drm.ko.".to_string(),
            " nvidia_drm.ko".to_string(),
            " nvidia_drm.ko.".to_string(),
        ]
    );
    let listing = "drwxr-xr-x usr/lib\n-rw-r--r-- usr/lib/modules/6/kernel/zfs.ko.zst\n";
    assert!(initrd_lists_module(listing, "zfs"));
    assert!(!initrd_lists_module(listing, "nvidia"));
}

#[test]
fn unsigned_numbers_are_parsed_like_std() {
    let p = |s: &str| {
        let chars: Vec<char> = s.chars().collect();
        parse_u64(&chars)
    };
    assert_eq!(p("123"), Some(123));
    assert_eq!(p("+7"), Some(7));
    assert_eq!(p("18446744073709551615"), Some(u64::MAX));
    assert_eq!(p("18446744073709551616"), None);
    assert_eq!(p(""), None);
    assert_eq!(p("+"), None);
    assert_eq!(p("-1"), None);
    assert_eq!(p("12a"), None);
}

#[test]
fn kernel_packages_and_provides() {
    let entries = parse_kernel_packages("kernel-default-6.1\t1700\n\n  \nbroken\nkernel-x\tsoon\r\n");
    assert_eq!(
        entries,
        vec![("kernel-default-6.1".to_string(), 1700), ("kernel-x".to_string(), 0)]
    );
    let mut kernels = Vec::new();
    add_kernel_provides(
        &mut kernels,
        "kernel-default-6.1",
        1700,
        "kernel-uname-r = 6.1-default\nkernel-uname-r = vmlinux\nkernel = 6.1\n  kernel-uname-r = 6.1-default\n",
    );
    add_kernel_provides(&mut kernels, "kernel-old", 10, "kernel-uname-r = 5.0-default\n");
    assert_eq!(kernels.len(), 2);
    let sorted = sort_kernels(kernels);
    assert_eq!(sorted[0].uname, "5.0-default");
    assert_eq!(sorted[1].uname, "6.1-default");
    assert_eq!(sorted[1].package, "kernel-default-6.1");
}

#[test]
fn kmp_packages_and_provides() {
    assert_eq!(
        parse_package_names(" b-kmp \n\na-kmp\n"),
        vec!["b-kmp".to_string(), "a-kmp".to_string()]
    );
    let mut modules = Vec::new();
    add_kmp_provides(&mut modules, "b-kmp", "kmod(y.ko)\nkmod(x.ko)\nkmod(y.ko)\nfoo\n");
    add_kmp_provides(&mut modules, "a-kmp", "kmod(z.ko)\n");
    assert_eq!(modules.len(), 3);
    let sorted = sort_kmp_modules(modules);
    let pairs: Vec<(String, String)> =
        sorted.into_iter().map(|m| (m.package, m.module)).collect();
    assert_eq!(
        pairs,
        vec![
            ("a-kmp".to_string(), "z".to_string()),
            ("b-kmp".to_string(), "x".to_string()),
            ("b-kmp".to_string(), "y".to_string()),
        ]
    );
}

#[test]
fn command_outputs() {
    assert_eq!(trimmed_output(" 6.1-default\n"), "6.1-default");
    assert_eq!(first_line_trimmed("btrfs \nxfs\n"), "btrfs");
    assert_eq!(first_line_trimmed(""), "");
    assert!(has_content(" x "));
    assert!(!has_content(" \n\t"));
}

#[test]
fn plugin_frames() {
    let reply = |frame: &[u8]| match plugin_step(frame) {
        PluginStep::Skip => None,
        PluginStep::Reply { run_check, response, stop } => Some((run_check, response, stop)),
    };
    assert_eq!(ack(), b"ACK\n\n\0".to_vec());
    assert_eq!(enomethod(), b"_ENOMETHOD\n\n\0".to_vec());
    assert_eq!(reply(b"\0"), None);
    assert_eq!(reply(b"PLUGINBEGIN\n\n\0"), Some((false, ack(), false)));
    assert_eq!(reply(b"PACKAGESETCHANGED\nheader:x\n\n\0"), Some((true, ack(), false)));
    assert_eq!(reply(b"PLUGINEND\n\n\0"), Some((false, ack(), true)));
    assert_eq!(reply(b"_DISCONNECT"), Some((false, ack(), true)));
    assert_eq!(reply(b"UNKNOWN\n\n\0"), Some((false, enomethod(), false)));
    assert_eq!(reply(b"\n\0"), Some((false, enomethod(), false)));
}

#[test]
fn command_line_arguments() {
    let args = |v: &[&str]| parse_args(v.iter().map(|s| s.to_string()).collect());
    let a = args(&["--kernel", "6.1", "--json", "--config-dir", "/tmp/x", "--strict", "--bogus"]);
    assert_eq!(a.kernel, Some("6.1".to_string()));
    assert!(a.json && a.strict && !a.help);
    assert_eq!(
        a.config_dirs,
        vec!["/etc/kmp-boot-check/modules.d".to_string(), "/tmp/x".to_string()]
    );
    let b = args(&["--kernel"]);
    assert_eq!(b.kernel, None);
    let c = args(&["-h", "--json"]);
    assert!(c.help && !c.json);
}

#[test]
fn root_filesystem_kmp_is_boot_risk() {
    let mut probe = Probe::new();
    probe.root_fstype = "foofs".to_string();
    probe.kmp_modules = vec![KmpModule {
        package: "foofs-kmp-default-1-1.x86_64".to_string(),
        module: "foofs".to_string(),
    }];
    let generic = generic_kmp_policies(&probe, &[]);
    assert_eq!(generic.len(), 1);
    assert_eq!(generic[0].module, "foofs");
    assert_eq!(generic[0].severity, Severity::BootRisk);
    assert_eq!(generic[0].initrd, InitrdPolicy::Required);
    assert!(!generic[0].important_kernels_only);
    assert_eq!(
        generic[0].reason,
        "KMP package is installed: foofs-kmp-default-1-1.x86_64; / is mounted as foofs"
    );
}

#[test]
fn root_filesystem_kmp_missing_from_initrd_on_old_kernel_is_boot_risk() {
    let mut probe = Probe::new();
    probe.root_fstype = "foofs".to_string();
    probe.running = "2-default".to_string();
    probe.kernels = vec![kernel("1-default", 1), kernel("2-default", 2)];
    probe.modules.insert(("1-default".to_string(), "foofs".to_string()));
    probe.modules.insert(("2-default".to_string(), "foofs".to_string()));
    probe.initrd = Some(false);
    probe.kmp_modules = vec![KmpModule { package: "foofs-kmp".to_string(), module: "foofs".to_string() }];
    let result = run_checks(&probe, None, Vec::new());
    assert_eq!(result.kernels[0].module_results.len(), 1);
    assert_eq!(result.kernels[0].module_results[0].severity, Severity::BootRisk);
    assert_eq!(exit_code(&result, false), 2);
}

#[test]
fn boot_mount_kmp_is_boot_risk_without_initrd() {
    let mut probe = Probe::new();
    probe.fstab = "# comment\nUUID=1 / btrfs defaults 0 0\nUUID=2 /data foofs defaults 0 2\n".to_string();
    probe.kmp_modules = vec![KmpModule { package: "foofs-kmp".to_string(), module: "foofs".to_string() }];
    let generic = generic_kmp_policies(&probe, &[]);
    assert_eq!(generic[0].severity, Severity::BootRisk);
    assert_eq!(generic[0].initrd, InitrdPolicy::Optional);
    assert!(!generic[0].important_kernels_only);
    assert_eq!(generic[0].reason, "KMP package is installed: foofs-kmp; a boot-required mount uses foofs");
}

#[test]
fn nofail_mount_kmp_stays_a_warning() {
    let mut probe = Probe::new();
    probe.fstab = "UUID=2 /data foofs defaults,nofail 0 2\n".to_string();
    probe.kmp_modules = vec![KmpModule { package: "foofs-kmp".to_string(), module: "foofs".to_string() }];
    let generic = generic_kmp_policies(&probe, &[]);
    assert_eq!(generic[0].severity, Severity::Warning);
    assert!(generic[0].important_kernels_only);
}

#[test]
fn fstab_boot_mounts() {
    assert_eq!(
        boot_mount_fstypes("  # x\n\nUUID=1\t/\tbtrfs\n/dev/sdb /srv xfs rw,nofail\n/dev/sdc /mnt ext4 rw,nofailx 0 0\nbroken line\n"),
        vec!["btrfs".to_string(), "ext4".to_string()]
    );
    let g = generic_kmp_policies_for(
        &[KmpModule { package: "p".to_string(), module: "ext4".to_string() }],
        &[],
        "btrfs",
        &["ext4".to_string()],
    );
    assert_eq!(g[0].severity, Severity::BootRisk);
}

#[test]
fn package_detection_asks_for_the_listed_patterns() {
    let mut probe = Probe::new();
    probe.has_packages = true;
    let outcome = detect_policy(" package: a-kmp-* , ,b ", &probe);
    assert_eq!(outcome, (true, "package pattern matched: a-kmp-*, b".to_string()));
    assert_eq!(
        *probe.asked_patterns.borrow(),
        vec![vec!["a-kmp-*".to_string(), "b".to_string()]]
    );
    let probe2 = Probe::new();
    let outcome = detect_policy("always", &probe2);
    assert_eq!(outcome, (true, "configured as always".to_string()));
    assert!(probe2.asked_patterns.borrow().is_empty());
}

#[test]
fn configuration_files_are_the_conf_ones_in_name_order() {
    assert!(is_conf_file("zfs.conf"));
    assert!(is_conf_file("..conf"));
    assert!(!is_conf_file(".conf"));
    assert!(!is_conf_file("zfs.conf.rpmsave"));
    assert!(!is_conf_file("zfs.cnf"));
    let names: Vec<String> = ["b.conf", "README", "a.conf", ".conf", "c.conf~", "A.conf"]
        .iter()
        .map(|name| name.to_string())
        .collect();
    assert_eq!(select_conf_files(&names), vec![5, 2, 0]);
    assert_eq!(select_conf_files(&[]), Vec::<usize>::new());
}

#[derive(Debug, PartialEq)]
enum Json {
    Null,
    Bool(bool),
    Str(String),
    Array(Vec<Json>),
    Object(Vec<(String, Json)>),
}

fn read_json(text: &[char], at: &mut usize) -> Json {
    let rest: String = text[*at..].iter().collect();
    if rest.starts_with("null") {
        *at += 4;
        return Json::Null;
    }
    if rest.starts_with("true") {
        *at += 4;
        return Json::Bool(true);
    }
    if rest.starts_with("false") {
        *at += 5;
        return Json::Bool(false);
    }
    match text[*at] {
        '"' => {
            *at += 1;
            let mut s = String::new();
            while text[*at] != '"' {
                if text[*at] == '\\' {
                    let e = text[*at + 1];
                    if e == 'u' {
                        let hex: String = text[*at + 2..*at + 6].iter().collect();
                        s.push(char::from_u32(u32::from_str_radix(&hex, 16).unwrap()).unwrap());
                        *at += 6;
                    } else {
                        s.push(match e {
                            'n' => '\n',
                            'r' => '\r',
                            't' => '\t',
                            other => other,
                        });
                        *at += 2;
                    }
                } else {
                    assert!(text[*at] > '\u{1f}');
                    s.push(text[*at]);
                    *at += 1;
                }
            }
            *at += 1;
            Json::Str(s)
        }
        '[' => {
            *at += 1;
            let mut items = Vec::new();
            while text[*at] != ']' {
                items.push(read_json(text, at));
                if text[*at] == ',' {
                    *at += 1;
                }
            }
            *at += 1;
            Json::Array(items)
        }
        '{' => {
            *at += 1;
            let mut members = Vec::new();
            while text[*at] != '}' {
                let key = match read_json(text, at) {
                    Json::Str(key) => key,
                    other => panic!("key {:?}", other),
                };
                assert_eq!(text[*at], ':');
                *at += 1;
                members.push((key, read_json(text, at)));
                if text[*at] == ',' {
                    *at += 1;
                }
            }
            *at += 1;
            Json::Object(members)
        }
        other => panic!("unexpected {:?}", other),
    }
}

fn text(s: &str) -> Json {
    Json::Str(s.to_string())
}

#[test]
fn json_report_reads_back_as_its_fields() {
    let p = ModulePolicy {
        name: "fs \"x\"".to_string(),
        module: "xfs".to_string(),
        enabled: true,
        initrd: InitrdPolicy::Optional,
        severity: Severity::Warning,
        reason: "line\nbreak".to_string(),
        important_kernels_only: false,
        next_boot_only: false,
    };
    let module = ModuleResult {
        policy: p,
        module_found: false,
        initrd_found: None,
        severity: Severity::Warning,
        message: "tab\there".to_string(),
    };
    let result = CheckResult {
        kernels: vec![KernelResult { kernel: kernel("1-default", 1), module_results: vec![module] }],
        diagnostics: vec!["a\u{1}b".to_string()],
    };
    let chars: Vec<char> = json_output(&result).chars().collect();
    let mut at = 0;
    let value = read_json(&chars, &mut at);
    assert_eq!(at, chars.len());
    let expected_module = Json::Object(vec![
        ("name".to_string(), text("fs \"x\"")),
        ("module".to_string(), text("xfs")),
        ("severity".to_string(), text("warn")),
        ("message".to_string(), text("tab\there")),
        ("module_found".to_string(), Json::Bool(false)),
        ("initrd_found".to_string(), Json::Null),
        ("reason".to_string(), text("line\nbreak")),
    ]);
    let expected_kernel = Json::Object(vec![
        ("uname".to_string(), text("1-default")),
        ("package".to_string(), text("kernel-1-default")),
        ("running".to_string(), Json::Bool(result.kernels[0].kernel.running)),
        ("latest".to_string(), Json::Bool(result.kernels[0].kernel.latest)),
        ("severity".to_string(), text("warn")),
        ("modules".to_string(), Json::Array(vec![expected_module])),
    ]);
    assert_eq!(
        value,
        Json::Object(vec![
            ("severity".to_string(), text("unknown")),
            ("diagnostics".to_string(), Json::Array(vec![text("a\u{1}b")])),
            ("kernels".to_string(), Json::Array(vec![expected_kernel])),
        ])
    );
}

fn important_policy(module: &str) -> ModulePolicy {
    ModulePolicy { important_kernels_only: true, ..policy(module, Severity::Warning, InitrdPolicy::Optional) }
}

#[test]
fn next_boot_kernel_is_checked_like_the_running_and_latest_ones() {
    let mut probe = Probe::new();
    probe.running = "3-default".to_string();
    probe.kernels = vec![kernel("1-default", 1), kernel("2-default", 2), kernel("3-default", 3)];
    probe.boot_entry = Some("opensuse-tumbleweed-2-default.conf".to_string());
    let result = run_checks(&probe, None, vec![important_policy("foo")]);
    assert!(result.diagnostics.is_empty());
    let checked: Vec<usize> = result.kernels.iter().map(|k| k.module_results.len()).collect();
    assert_eq!(checked, vec![0, 1, 1]);
    assert_eq!(result.kernels[1].kernel.uname, "2-default");
}

#[test]
fn unknown_boot_entry_falls_back_with_a_diagnostic() {
    let mut probe = Probe::new();
    probe.running = "2-default".to_string();
    probe.kernels = vec![kernel("1-default", 1), kernel("2-default", 2)];
    probe.boot_entry = Some("other-9-default.conf".to_string());
    let result = run_checks(&probe, None, vec![important_policy("foo")]);
    assert_eq!(
        result.diagnostics,
        vec!["bootloader default entry matches no installed kernel: other-9-default.conf".to_string()]
    );
    let checked: Vec<usize> = result.kernels.iter().map(|k| k.module_results.len()).collect();
    assert_eq!(checked, vec![0, 1]);
}

#[test]
fn requested_kernel_skips_the_bootloader_default() {
    let mut probe = Probe::new();
    probe.kernels = vec![kernel("1-default", 1), kernel("2-default", 2)];
    probe.boot_entry = Some("other-9-default.conf".to_string());
    let result = run_checks(&probe, Some("1-default"), vec![important_policy("foo")]);
    assert!(result.diagnostics.is_empty());
    assert_eq!(result.kernels.len(), 1);
    assert_eq!(result.kernels[0].module_results.len(), 1);
}

#[test]
fn boot_entry_names_the_first_matching_release() {
    let kernels = vec![kernel("1-default", 1), kernel("2-default", 2)];
    assert_eq!(boot_entry_release(&kernels, "x-2-default.conf"), Some("2-default".to_string()));
    assert_eq!(boot_entry_release(&kernels, "x-3-default.conf"), None);
    assert_eq!(boot_entry_release(&Vec::new(), "x-2-default.conf"), None);
}

fn next_boot_policy(module: &str) -> ModulePolicy {
    ModulePolicy {
        important_kernels_only: true,
        next_boot_only: true,
        ..policy(module, Severity::BootRisk, InitrdPolicy::Auto)
    }
}

#[test]
fn next_boot_scope_is_read_from_the_configuration() {
    let probe = Probe::new();
    let policies = parse_policy_config(
        "[module \"a\"]\nscope = next-boot\n[module \"b\"]\nscope = important\n[module \"c\"]\nscope = all\n",
        &probe,
    );
    let scopes: Vec<(bool, bool)> =
        policies.iter().map(|p| (p.important_kernels_only, p.next_boot_only)).collect();
    assert_eq!(scopes, vec![(true, true), (true, false), (false, false)]);
}

#[test]
fn next_boot_policy_checks_only_the_kernel_booted_next() {
    let mut probe = Probe::new();
    probe.running = "3-default".to_string();
    probe.kernels = vec![kernel("1-default", 1), kernel("2-default", 2), kernel("3-default", 3)];
    probe.boot_entry = Some("opensuse-tumbleweed-2-default.conf".to_string());
    let result = run_checks(&probe, None, vec![next_boot_policy("nvidia_drm")]);
    let checked: Vec<usize> = result.kernels.iter().map(|k| k.module_results.len()).collect();
    assert_eq!(checked, vec![0, 1, 0]);
}

#[test]
fn next_boot_policy_without_a_bootloader_default_checks_running_and_latest() {
    let mut probe = Probe::new();
    probe.running = "1-default".to_string();
    probe.kernels = vec![kernel("1-default", 1), kernel("2-default", 2), kernel("3-default", 3)];
    let result = run_checks(&probe, None, vec![next_boot_policy("nvidia_drm")]);
    let checked: Vec<usize> = result.kernels.iter().map(|k| k.module_results.len()).collect();
    assert_eq!(checked, vec![1, 0, 1]);
}

#[test]
fn disabled_configured_policy_turns_a_built_in_check_off() {
    let mut probe = Probe::new();
    probe.root_fstype = "zfs".to_string();
    probe.kernels = vec![kernel("1-default", 1)];
    let disabled = parse_policy_config("[module \"zfs\"]\nenabled = false\n", &probe);
    let result = run_checks(&probe, None, disabled);
    assert!(result.kernels[0].module_results.is_empty());
    assert_eq!(result.diagnostics, vec!["no enabled module policies detected".to_string()]);
}

#[test]
fn configured_policy_takes_the_place_of_the_built_in_one() {
    let mut probe = Probe::new();
    probe.root_fstype = "zfs".to_string();
    probe.kernels = vec![kernel("1-default", 1)];
    let configured = parse_policy_config("[module \"zfs\"]\nseverity = warning\n", &probe);
    let result = run_checks(&probe, None, configured);
    assert_eq!(result.kernels[0].module_results.len(), 1);
    assert_eq!(result.kernels[0].module_results[0].severity, Severity::Warning);
}

#[test]
fn kernel_sort_keeps_the_order_of_equal_keys() {
    let mut first = kernel("5-default", 5);
    first.package = "kernel-b".to_string();
    let mut second = kernel("5-default", 5);
    second.package = "kernel-a".to_string();
    let sorted = sort_kernels(vec![first, second, kernel("1-default", 1)]);
    let packages: Vec<&str> = sorted.iter().map(|k| k.package.as_str()).collect();
    assert_eq!(packages, vec!["kernel-1-default", "kernel-b", "kernel-a"]);
}
