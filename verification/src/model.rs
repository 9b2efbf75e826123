use vstd::prelude::*;

verus! {

/// How serious the outcome of a check is, from harmless to undetermined.
#[derive(Clone, Copy, Debug, PartialEq, Eq, Structural, PartialOrd, Ord)]
pub enum Severity {
    Okay,
    Warning,
    BootRisk,
    Unknown,
}

/// Whether a module must also be present in the initrd.
#[derive(Clone, Copy, Debug, PartialEq, Eq, Structural)]
pub enum InitrdPolicy {
    Optional,
    Required,
    Auto,
}

/// The position of a severity in the order `Okay < Warning < BootRisk < Unknown`.
pub open spec fn severity_rank(s: Severity) -> int {
    match s {
        Severity::Okay => 0,
        Severity::Warning => 1,
        Severity::BootRisk => 2,
        Severity::Unknown => 3,
    }
}

/// The greater of two severities.
pub open spec fn severity_max(a: Severity, b: Severity) -> Severity {
    if severity_rank(a) < severity_rank(b) {
        b
    } else {
        a
    }
}

/// Machine-readable name of a severity.
pub open spec fn spec_status(s: Severity) -> Seq<char> {
    match s {
        Severity::Okay => "ok"@,
        Severity::Warning => "warn"@,
        Severity::BootRisk => "risk"@,
        Severity::Unknown => "unknown"@,
    }
}

/// Human-readable name of a severity.
pub open spec fn spec_label(s: Severity) -> Seq<char> {
    match s {
        Severity::Okay => "OK"@,
        Severity::Warning => "WARN"@,
        Severity::BootRisk => "RISK"@,
        Severity::Unknown => "UNKNOWN"@,
    }
}

impl Severity {
    /// The machine-readable name: `ok`, `warn`, `risk`, `unknown`.
    pub fn status(self) -> (r: &'static str)
        ensures
            r@ == spec_status(self),
    {
        match self {
            Severity::Okay => "ok",
            Severity::Warning => "warn",
            Severity::BootRisk => "risk",
            Severity::Unknown => "unknown",
        }
    }

    /// The human-readable name: `OK`, `WARN`, `RISK`, `UNKNOWN`.
    pub fn label(self) -> (r: &'static str)
        ensures
            r@ == spec_label(self),
    {
        match self {
            Severity::Okay => "OK",
            Severity::Warning => "WARN",
            Severity::BootRisk => "RISK",
            Severity::Unknown => "UNKNOWN",
        }
    }

    /// The greater of `self` and `other` in the severity order.
    pub fn max_with(self, other: Severity) -> (r: Severity)
        ensures
            r == severity_max(self, other),
    {
        let a: u8 = self.rank();
        let b: u8 = other.rank();
        if a < b {
            other
        } else {
            self
        }
    }

    /// The position of this severity in the severity order.
    pub fn rank(self) -> (r: u8)
        ensures
            r == severity_rank(self),
    {
        match self {
            Severity::Okay => 0,
            Severity::Warning => 1,
            Severity::BootRisk => 2,
            Severity::Unknown => 3,
        }
    }
}


/// An installed kernel.
#[derive(Clone, Debug, PartialEq, Eq)]
pub struct Kernel {
    pub uname: String,
    pub package: String,
    pub install_time: u64,
    pub running: bool,
    pub latest: bool,
}

/// The value of a [`Kernel`], with its strings as character sequences.
pub struct KernelView {
    pub uname: Seq<char>,
    pub package: Seq<char>,
    pub install_time: u64,
    pub running: bool,
    pub latest: bool,
}

impl View for Kernel {
    type V = KernelView;

    open spec fn view(&self) -> KernelView {
        KernelView {
            uname: self.uname@,
            package: self.package@,
            install_time: self.install_time,
            running: self.running,
            latest: self.latest,
        }
    }
}

impl Kernel {
    /// A copy of this kernel.
    pub fn duplicate(&self) -> (r: Kernel)
        ensures
            r@ == self@,
    {
        Kernel {
            uname: self.uname.clone(),
            package: self.package.clone(),
            install_time: self.install_time,
            running: self.running,
            latest: self.latest,
        }
    }
}

/// What must be checked about one kernel module, and why.
#[derive(Clone, Debug, PartialEq, Eq)]
pub struct ModulePolicy {
    pub name: String,
    pub module: String,
    pub enabled: bool,
    pub initrd: InitrdPolicy,
    pub severity: Severity,
    pub reason: String,
    pub important_kernels_only: bool,
    pub next_boot_only: bool,
}

/// The value of a [`ModulePolicy`], with its strings as character sequences.
pub struct ModulePolicyView {
    pub name: Seq<char>,
    pub module: Seq<char>,
    pub enabled: bool,
    pub initrd: InitrdPolicy,
    pub severity: Severity,
    pub reason: Seq<char>,
    pub important_kernels_only: bool,
    pub next_boot_only: bool,
}

impl View for ModulePolicy {
    type V = ModulePolicyView;

    open spec fn view(&self) -> ModulePolicyView {
        ModulePolicyView {
            name: self.name@,
            module: self.module@,
            enabled: self.enabled,
            initrd: self.initrd,
            severity: self.severity,
            reason: self.reason@,
            important_kernels_only: self.important_kernels_only,
            next_boot_only: self.next_boot_only,
        }
    }
}

impl ModulePolicy {
    /// A copy of this policy.
    pub fn duplicate(&self) -> (r: ModulePolicy)
        ensures
            r@ == self@,
    {
        ModulePolicy {
            name: self.name.clone(),
            module: self.module.clone(),
            enabled: self.enabled,
            initrd: self.initrd,
            severity: self.severity,
            reason: self.reason.clone(),
            important_kernels_only: self.important_kernels_only,
            next_boot_only: self.next_boot_only,
        }
    }
}

/// The views of a sequence of policies.
pub open spec fn policies_view(v: Seq<ModulePolicy>) -> Seq<ModulePolicyView> {
    v.map_values(|p: ModulePolicy| p@)
}

/// The views of a sequence of kernels.
pub open spec fn kernels_view(v: Seq<Kernel>) -> Seq<KernelView> {
    v.map_values(|k: Kernel| k@)
}

/// A kernel module that an installed KMP package provides.
#[derive(Clone, Debug, PartialEq, Eq)]
pub struct KmpModule {
    pub package: String,
    pub module: String,
}

/// The value of a [`KmpModule`], with its strings as character sequences.
pub struct KmpModuleView {
    pub package: Seq<char>,
    pub module: Seq<char>,
}

impl View for KmpModule {
    type V = KmpModuleView;

    open spec fn view(&self) -> KmpModuleView {
        KmpModuleView { package: self.package@, module: self.module@ }
    }
}

/// The views of a sequence of KMP modules.
pub open spec fn kmp_modules_view(v: Seq<KmpModule>) -> Seq<KmpModuleView> {
    v.map_values(|m: KmpModule| m@)
}

/// The outcome of checking one module policy against one kernel.
#[derive(Clone, Debug, PartialEq, Eq)]
pub struct ModuleResult {
    pub policy: ModulePolicy,
    pub module_found: bool,
    pub initrd_found: Option<bool>,
    pub severity: Severity,
    pub message: String,
}

/// The value of a [`ModuleResult`], with its strings as character sequences.
pub struct ModuleResultView {
    pub policy: ModulePolicyView,
    pub module_found: bool,
    pub initrd_found: Option<bool>,
    pub severity: Severity,
    pub message: Seq<char>,
}

impl View for ModuleResult {
    type V = ModuleResultView;

    open spec fn view(&self) -> ModuleResultView {
        ModuleResultView {
            policy: self.policy@,
            module_found: self.module_found,
            initrd_found: self.initrd_found,
            severity: self.severity,
            message: self.message@,
        }
    }
}

/// The views of a sequence of module results.
pub open spec fn module_results_view(v: Seq<ModuleResult>) -> Seq<ModuleResultView> {
    v.map_values(|m: ModuleResult| m@)
}

/// The greatest severity in `s`, or `Okay` when `s` is empty.
pub open spec fn max_severity(s: Seq<Severity>) -> Severity
    decreases s.len(),
{
    if s.len() == 0 {
        Severity::Okay
    } else {
        severity_max(max_severity(s.drop_last()), s.last())
    }
}

/// The outcomes of checking every applicable policy against one kernel.
#[derive(Clone, Debug, PartialEq, Eq)]
pub struct KernelResult {
    pub kernel: Kernel,
    pub module_results: Vec<ModuleResult>,
}

/// The value of a [`KernelResult`].
pub struct KernelResultView {
    pub kernel: KernelView,
    pub module_results: Seq<ModuleResultView>,
}

impl View for KernelResult {
    type V = KernelResultView;

    open spec fn view(&self) -> KernelResultView {
        KernelResultView {
            kernel: self.kernel@,
            module_results: module_results_view(self.module_results@),
        }
    }
}

/// The severity of a kernel's outcome: the greatest severity of its module
/// results, `Okay` when it has none.
pub open spec fn kernel_severity(r: KernelResultView) -> Severity {
    max_severity(r.module_results.map_values(|m: ModuleResultView| m.severity))
}

impl KernelResult {
    /// The greatest severity of the module results, `Okay` when there is none.
    pub fn severity(&self) -> (r: Severity)
        ensures
            r == kernel_severity(self@),
    {
        let ghost sevs = self@.module_results.map_values(|m: ModuleResultView| m.severity);
        let mut acc = Severity::Okay;
        for i in 0..self.module_results.len()
            invariant
                sevs == self@.module_results.map_values(|m: ModuleResultView| m.severity),
                sevs.len() == self.module_results.len(),
                acc == max_severity(sevs.take(i as int)),
        {
            assert(sevs.take(i + 1).drop_last() == sevs.take(i as int));
            acc = acc.max_with(self.module_results[i].severity);
        }
        assert(sevs.take(self.module_results.len() as int) == sevs);
        acc
    }
}

/// The outcome of a whole check: one result per kernel, and the diagnostics
/// of what could not be determined.
#[derive(Clone, Debug, PartialEq, Eq)]
pub struct CheckResult {
    pub kernels: Vec<KernelResult>,
    pub diagnostics: Vec<String>,
}

/// The value of a [`CheckResult`].
pub struct CheckResultView {
    pub kernels: Seq<KernelResultView>,
    pub diagnostics: Seq<Seq<char>>,
}

/// The views of a sequence of strings.
pub open spec fn strings_view(v: Seq<String>) -> Seq<Seq<char>> {
    v.map_values(|s: String| s@)
}

impl View for CheckResult {
    type V = CheckResultView;

    open spec fn view(&self) -> CheckResultView {
        CheckResultView {
            kernels: self.kernels@.map_values(|k: KernelResult| k@),
            diagnostics: strings_view(self.diagnostics@),
        }
    }
}

/// The severity of a whole check: the greatest kernel severity, `Okay` when
/// there is no kernel, and `Unknown` as soon as there is a diagnostic.
pub open spec fn check_severity(r: CheckResultView) -> Severity {
    let m = max_severity(r.kernels.map_values(|k: KernelResultView| kernel_severity(k)));
    if r.diagnostics.len() > 0 {
        severity_max(m, Severity::Unknown)
    } else {
        m
    }
}

impl CheckResult {
    /// The greatest kernel severity, `Okay` when there is no kernel, and
    /// `Unknown` as soon as there is a diagnostic.
    pub fn severity(&self) -> (r: Severity)
        ensures
            r == check_severity(self@),
    {
        let ghost sevs = self@.kernels.map_values(|k: KernelResultView| kernel_severity(k));
        let mut acc = Severity::Okay;
        for i in 0..self.kernels.len()
            invariant
                sevs == self@.kernels.map_values(|k: KernelResultView| kernel_severity(k)),
                sevs.len() == self.kernels.len(),
                acc == max_severity(sevs.take(i as int)),
        {
            assert(sevs.take(i + 1).drop_last() == sevs.take(i as int));
            let s = self.kernels[i].severity();
            acc = acc.max_with(s);
        }
        assert(sevs.take(self.kernels.len() as int) == sevs);
        if self.diagnostics.len() > 0 {
            acc = acc.max_with(Severity::Unknown);
        }
        acc
    }
}

/// The process exit code for a check's severity; the same with and without
/// `--strict`.
pub open spec fn spec_exit_code(s: Severity, strict: bool) -> i32 {
    match s {
        Severity::Okay => 0,
        Severity::Warning => 1,
        Severity::BootRisk => 2,
        Severity::Unknown => 3,
    }
}

/// The process exit code: 0 when no issue was found, 1 for a warning, 2 for
/// a boot risk, and 3 when the check could not determine the result, with or
/// without `strict`.
pub fn exit_code(result: &CheckResult, strict: bool) -> (r: i32)
    ensures
        r == spec_exit_code(check_severity(result@), strict),
{
    match result.severity() {
        Severity::Okay => 0,
        Severity::Warning => 1,
        Severity::BootRisk => 2,
        Severity::Unknown => 3,
    }
}


/// The greatest severity of a list is at least each of its members, and is
/// either `Okay` or one of them.
pub proof fn lemma_max_severity_bounds(s: Seq<Severity>)
    ensures
        forall|k: int|
            0 <= k < s.len() ==> severity_rank(#[trigger] s[k]) <= severity_rank(max_severity(s)),
        max_severity(s) == Severity::Okay || exists|k: int|
            0 <= k < s.len() && s[k] == max_severity(s),
    decreases s.len(),
{
    if s.len() > 0 {
        lemma_max_severity_bounds(s.drop_last());
        assert forall|k: int| 0 <= k < s.len() implies severity_rank(#[trigger] s[k])
            <= severity_rank(max_severity(s)) by {
            if k < s.len() - 1 {
                assert(s[k] == s.drop_last()[k]);
            }
        }
        if max_severity(s) != Severity::Okay && max_severity(s) != s.last() {
            let k = choose|k: int|
                0 <= k < s.drop_last().len() && s.drop_last()[k] == max_severity(s.drop_last());
            assert(s[k] == max_severity(s));
        }
    }
}

/// The severity of a whole check is at least that of each kernel, which is
/// at least that of each of its module results.
pub proof fn lemma_check_severity_dominates(r: CheckResultView, i: int, j: int)
    requires
        0 <= i < r.kernels.len(),
        0 <= j < r.kernels[i].module_results.len(),
    ensures
        severity_rank(r.kernels[i].module_results[j].severity) <= severity_rank(
            kernel_severity(r.kernels[i]),
        ),
        severity_rank(kernel_severity(r.kernels[i])) <= severity_rank(check_severity(r)),
{
    let ms = r.kernels[i].module_results.map_values(|m: ModuleResultView| m.severity);
    lemma_max_severity_bounds(ms);
    assert(ms[j] == r.kernels[i].module_results[j].severity);
    let ks = r.kernels.map_values(|k: KernelResultView| kernel_severity(k));
    lemma_max_severity_bounds(ks);
    assert(ks[i] == kernel_severity(r.kernels[i]));
}

/// A check exits with 0 exactly when it has no diagnostic and every module
/// result is `Okay`; a diagnostic makes the check `Unknown`.
pub proof fn lemma_exit_zero_iff_clean(r: CheckResultView, strict: bool)
    ensures
        spec_exit_code(check_severity(r), strict) == 0 <==> (r.diagnostics.len() == 0 && forall|
            i: int,
            j: int,
        |
            0 <= i < r.kernels.len() && 0 <= j < r.kernels[i].module_results.len()
                ==> (#[trigger] r.kernels[i].module_results[j]).severity == Severity::Okay),
        r.diagnostics.len() > 0 ==> check_severity(r) == Severity::Unknown,
{
    let ks = r.kernels.map_values(|k: KernelResultView| kernel_severity(k));
    lemma_max_severity_bounds(ks);
    if spec_exit_code(check_severity(r), strict) == 0 {
        assert forall|i: int, j: int|
            0 <= i < r.kernels.len() && 0 <= j < r.kernels[i].module_results.len() implies (
            #[trigger] r.kernels[i].module_results[j]).severity == Severity::Okay by {
            lemma_check_severity_dominates(r, i, j);
        }
    }
    if r.diagnostics.len() == 0 && forall|i: int, j: int|
        0 <= i < r.kernels.len() && 0 <= j < r.kernels[i].module_results.len()
            ==> (#[trigger] r.kernels[i].module_results[j]).severity == Severity::Okay {
        if max_severity(ks) != Severity::Okay {
            let i = choose|k: int| 0 <= k < ks.len() && ks[k] == max_severity(ks);
            let ms = r.kernels[i].module_results.map_values(|m: ModuleResultView| m.severity);
            lemma_max_severity_bounds(ms);
            let j = choose|k: int| 0 <= k < ms.len() && ms[k] == max_severity(ms);
            assert(r.kernels[i].module_results[j].severity == Severity::Okay);
        }
    }
}


/// The exit code names the severity, whatever `strict` is: 0 exactly for
/// no issue, 1 exactly for a warning, 2 exactly for a boot risk and 3
/// exactly for an undetermined result.
pub proof fn lemma_exit_code_names_severity(s: Severity, strict: bool)
    ensures
        spec_exit_code(s, strict) == spec_exit_code(s, !strict),
        spec_exit_code(s, strict) == 0 <==> s == Severity::Okay,
        spec_exit_code(s, strict) == 1 <==> s == Severity::Warning,
        spec_exit_code(s, strict) == 2 <==> s == Severity::BootRisk,
        spec_exit_code(s, strict) == 3 <==> s == Severity::Unknown,
{
}

} // verus!
