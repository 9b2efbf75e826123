use crate::model::{
    kernels_view, policies_view, CheckResult, CheckResultView, InitrdPolicy, Kernel,
    KernelResult, KernelResultView, KernelView, KmpModuleView, ModulePolicy, ModulePolicyView,
    ModuleResult, ModuleResultView, Severity,
};
use crate::policy::{
    builtin_policies, drop_configured, generic_kmp_policies, nvidia_patterns, policy_modules,
    rootfs_policy, spec_boot_fstypes, spec_builtin_policies, spec_generic_kmp_policies,
    without_modules, lemma_generic_policies_shape, lemma_without_modules,
    lemma_without_modules_members,
};
use crate::probe::{
    boot_entry_answer, fstab_answer, initrd_answer, kernels_answer, kmp_modules_answer, module_answer,
    package_answer, root_fstype_answer, running_answer, SystemProbe,
};
use crate::text::{chars_of, contains, contains_chars, eq_str};
use vstd::prelude::*;

verus! {

/// `a` sorts before `b`: character by character, a proper prefix first.
/// As UTF-8 keeps the order of code points, this is the order of `String`.
pub open spec fn seq_lt(a: Seq<char>, b: Seq<char>) -> bool
    decreases a.len(),
{
    if a.len() == 0 {
        b.len() > 0
    } else if b.len() == 0 {
        false
    } else if a[0] != b[0] {
        a[0] < b[0]
    } else {
        seq_lt(a.drop_first(), b.drop_first())
    }
}

/// `a` sorts before `b`.
pub fn lt_chars(a: &[char], b: &[char]) -> (r: bool)
    ensures
        r == seq_lt(a@, b@),
{
    let mut i: usize = 0;
    assert(a@.skip(0) == a@);
    assert(b@.skip(0) == b@);
    while i < a.len() && i < b.len() && a[i] == b[i]
        invariant
            i <= a.len(),
            i <= b.len(),
            seq_lt(a@, b@) == seq_lt(a@.skip(i as int), b@.skip(i as int)),
        decreases a.len() - i,
    {
        assert(a@.skip(i as int).drop_first() == a@.skip(i + 1));
        assert(b@.skip(i as int).drop_first() == b@.skip(i + 1));
        i = i + 1;
    }
    if i == a.len() {
        i < b.len()
    } else if i == b.len() {
        false
    } else {
        assert(a@.skip(i as int)[0] == a@[i as int]);
        assert(b@.skip(i as int)[0] == b@[i as int]);
        a[i] < b[i]
    }
}

/// The string `a` sorts before the string `b`.
pub fn lt_str(a: &str, b: &str) -> (r: bool)
    ensures
        r == seq_lt(a@, b@),
{
    let x = chars_of(a);
    let y = chars_of(b);
    lt_chars(x.as_slice(), y.as_slice())
}

/// Kernels are ordered by install time, then by release.
pub open spec fn kernel_before(a: KernelView, b: KernelView) -> bool {
    a.install_time < b.install_time || (a.install_time == b.install_time && seq_lt(
        a.uname,
        b.uname,
    ))
}

/// The position of the latest kernel: the greatest in the kernel order, the
/// last of them when several are equal.
pub open spec fn latest_index(ks: Seq<KernelView>) -> int
    decreases ks.len(),
{
    if ks.len() <= 1 {
        0
    } else {
        let j = latest_index(ks.drop_last());
        if kernel_before(ks.last(), ks[j]) {
            j
        } else {
            ks.len() - 1
        }
    }
}

/// The kernels with `running` set on those whose release is the running
/// one, and `latest` on those whose release is that of the latest kernel.
pub open spec fn spec_annotate(ks: Seq<KernelView>, running: Seq<char>) -> Seq<KernelView> {
    Seq::new(
        ks.len(),
        |i: int|
            KernelView {
                running: ks[i].uname == running,
                latest: ks[i].uname == ks[latest_index(ks)].uname,
                ..ks[i]
            },
    )
}

proof fn lemma_latest_index_bounds(ks: Seq<KernelView>)
    ensures
        ks.len() > 0 ==> 0 <= latest_index(ks) < ks.len(),
    decreases ks.len(),
{
    if ks.len() > 1 {
        lemma_latest_index_bounds(ks.drop_last());
    }
}

/// Marks the running and the latest kernels.
pub fn annotate_kernels(kernels: Vec<Kernel>, running: &str) -> (r: Vec<Kernel>)
    ensures
        kernels_view(r@) == spec_annotate(kernels_view(kernels@), running@),
{
    let ghost kv = kernels_view(kernels@);
    let n = kernels.len();
    let mut latest: usize = 0;
    if n > 1 {
        let mut i: usize = 1;
        assert(kv.take(1).len() == 1);
        while i < n
            invariant
                kv == kernels_view(kernels@),
                kv.len() == n,
                1 <= i <= n,
                latest as int == latest_index(kv.take(i as int)),
                latest < i,
            decreases n - i,
        {
            proof {
                lemma_latest_index_bounds(kv.take(i as int));
                assert(kv.take(i + 1).drop_last() == kv.take(i as int));
                assert(kv.take(i + 1)[latest as int] == kv[latest as int]);
            }
            let a = &kernels[i];
            let b = &kernels[latest];
            let before = a.install_time < b.install_time || (a.install_time == b.install_time
                && lt_str(a.uname.as_str(), b.uname.as_str()));
            if !before {
                latest = i;
            }
            i = i + 1;
        }
        assert(kv.take(n as int) == kv);
    }
    let mut out: Vec<Kernel> = Vec::new();
    for i in 0..n
        invariant
            kv == kernels_view(kernels@),
            kv.len() == n,
            n > 0 ==> latest as int == latest_index(kv),
            n > 0 ==> latest < n,
            kernels_view(out@) == spec_annotate(kv, running@).take(i as int),
    {
        let k = &kernels[i];
        let is_running = eq_str(k.uname.as_str(), running);
        let is_latest = eq_str(k.uname.as_str(), kernels[latest].uname.as_str());
        let ghost before = out@;
        out.push(
            Kernel {
                uname: k.uname.clone(),
                package: k.package.clone(),
                install_time: k.install_time,
                running: is_running,
                latest: is_latest,
            },
        );
        assert(kernels_view(out@) == kernels_view(before).push(spec_annotate(kv, running@)[i as int]));
        assert(spec_annotate(kv, running@).take(i + 1) == spec_annotate(kv, running@).take(i as int).push(
            spec_annotate(kv, running@)[i as int],
        ));
    }
    assert(spec_annotate(kv, running@).take(n as int) == spec_annotate(kv, running@));
    out
}


/// Whether the initrd is inspected for a policy: only when the module was
/// found and the policy asks for the initrd (`Required`) or reports it
/// (`Auto`).
pub open spec fn initrd_inspected(p: ModulePolicyView, module_found: bool) -> bool {
    module_found && (p.initrd == InitrdPolicy::Required || p.initrd == InitrdPolicy::Auto)
}

/// The severity and message for a policy, given whether the module was found
/// and what the initrd inspection gave.
pub open spec fn spec_module_outcome(
    p: ModulePolicyView,
    module_found: bool,
    initrd_found: Option<bool>,
) -> (Severity, Seq<char>) {
    if !module_found {
        (p.severity, "missing module "@ + p.module)
    } else if p.initrd == InitrdPolicy::Required {
        match initrd_found {
            Some(false) => (p.severity, "module "@ + p.module + " is not present in initrd"@),
            None => (Severity::Unknown, "could not inspect initrd for "@ + p.module),
            Some(true) => (Severity::Okay, "ok"@),
        }
    } else {
        (Severity::Okay, "ok"@)
    }
}

/// The module result for a policy, given the answers about the module and,
/// when it is inspected, the initrd.
pub open spec fn spec_module_result(
    p: ModulePolicyView,
    module_found: bool,
    initrd_found: Option<bool>,
) -> ModuleResultView {
    let initrd = if initrd_inspected(p, module_found) {
        initrd_found
    } else {
        None
    };
    ModuleResultView {
        policy: p,
        module_found,
        initrd_found: initrd,
        severity: spec_module_outcome(p, module_found, initrd).0,
        message: spec_module_outcome(p, module_found, initrd).1,
    }
}

/// A module result is what its own policy and answers give.
pub open spec fn module_result_valid(r: ModuleResultView) -> bool {
    r == spec_module_result(r.policy, r.module_found, r.initrd_found)
}

/// The module result for a policy, given whether the module was found and
/// what the initrd inspection gave (used only when the initrd is inspected).
pub fn module_result_for(
    policy: &ModulePolicy,
    module_found: bool,
    initrd_found: Option<bool>,
) -> (r: ModuleResult)
    ensures
        r@ == spec_module_result(policy@, module_found, initrd_found),
{
    let inspected = module_found && (policy.initrd == InitrdPolicy::Required || policy.initrd
        == InitrdPolicy::Auto);
    let initrd = if inspected {
        initrd_found
    } else {
        None
    };
    let mut severity = Severity::Okay;
    let mut message = String::from_str("ok");
    if !module_found {
        severity = policy.severity;
        message = String::from_str("missing module ");
        message.append(policy.module.as_str());
    } else if policy.initrd == InitrdPolicy::Required {
        match initrd {
            Some(false) => {
                severity = policy.severity;
                message = String::from_str("module ");
                message.append(policy.module.as_str());
                message.append(" is not present in initrd");
            },
            None => {
                severity = Severity::Unknown;
                message = String::from_str("could not inspect initrd for ");
                message.append(policy.module.as_str());
            },
            Some(true) => {},
        }
    }
    ModuleResult { policy: policy.duplicate(), module_found, initrd_found: initrd, severity, message }
}

/// Checks one policy against one kernel: asks the probe whether the module
/// is available and, when the policy needs it, whether the initrd has it.
///
/// The result is about `policy`; whether the module was found is the
/// probe's answer for the kernel's release and the policy's module; the
/// initrd answer is the probe's for the same pair when the initrd is
/// inspected, and `None` otherwise; severity and message follow from them.
pub fn check_module<P: SystemProbe + ?Sized>(
    kernel: &Kernel,
    policy: &ModulePolicy,
    probe: &P,
) -> (r: ModuleResult)
    ensures
        r@.policy == policy@,
        module_result_valid(r@),
        module_result_probed(probe, kernel@.uname, r@),
{
    let module_found = probe.has_module(kernel.uname.as_str(), policy.module.as_str());
    let mut initrd_found: Option<bool> = None;
    if module_found && (policy.initrd == InitrdPolicy::Required || policy.initrd
        == InitrdPolicy::Auto) {
        initrd_found = probe.initrd_has_module(kernel.uname.as_str(), policy.module.as_str());
    }
    module_result_for(policy, module_found, initrd_found)
}

/// The answers recorded in a module result are answers the probe gives for
/// the kernel release `uname` and the result's module: about the module
/// itself, and about the initrd when it is inspected.
pub open spec fn module_result_probed<P: SystemProbe + ?Sized>(
    probe: &P,
    uname: Seq<char>,
    r: ModuleResultView,
) -> bool {
    &&& module_answer(probe, uname, r.policy.module, r.module_found)
    &&& initrd_inspected(r.policy, r.module_found) ==> initrd_answer(
        probe,
        uname,
        r.policy.module,
        r.initrd_found,
    )
}

/// A policy applies to a kernel when it is enabled and the kernel is one it
/// is for: any kernel for an unrestricted policy; for a policy restricted
/// to the important kernels, a running, latest or next-boot one; for a
/// next-boot policy, the next-boot one. A requested kernel gets every
/// enabled policy. `next_boot` tells that the kernel is booted next (when
/// that is unknown, that it is running or latest).
pub open spec fn policy_applies(
    p: ModulePolicyView,
    k: KernelView,
    requested: bool,
    next_boot: bool,
) -> bool {
    p.enabled && (requested || if p.next_boot_only {
        next_boot
    } else {
        !p.important_kernels_only || k.running || k.latest || next_boot
    })
}

/// The policies that apply to a kernel, in order.
pub open spec fn applicable(
    ps: Seq<ModulePolicyView>,
    k: KernelView,
    requested: bool,
    next_boot: bool,
) -> Seq<ModulePolicyView>
    decreases ps.len(),
{
    if ps.len() == 0 {
        Seq::empty()
    } else {
        let prev = applicable(ps.drop_last(), k, requested, next_boot);
        if policy_applies(ps.last(), k, requested, next_boot) {
            prev.push(ps.last())
        } else {
            prev
        }
    }
}

/// A kernel result holds the kernel and one valid module result for each
/// applicable policy, in order.
pub open spec fn kernel_result_valid(
    r: KernelResultView,
    k: KernelView,
    ps: Seq<ModulePolicyView>,
    requested: bool,
    next_boot: bool,
) -> bool {
    let app = applicable(ps, k, requested, next_boot);
    &&& r.kernel == k
    &&& r.module_results.len() == app.len()
    &&& forall|i: int|
        0 <= i < app.len() ==> (#[trigger] r.module_results[i]).policy == app[i]
            && module_result_valid(r.module_results[i])
}

/// Every module result of a kernel result records answers the probe gives
/// for that kernel's release and the result's module.
pub open spec fn kernel_result_probed<P: SystemProbe + ?Sized>(
    probe: &P,
    r: KernelResultView,
) -> bool {
    forall|j: int|
        0 <= j < r.module_results.len() ==> module_result_probed(
            probe,
            r.kernel.uname,
            #[trigger] r.module_results[j],
        )
}

/// Every module result of a check records answers the probe gives.
pub open spec fn results_probed<P: SystemProbe + ?Sized>(probe: &P, r: CheckResultView) -> bool {
    forall|i: int| 0 <= i < r.kernels.len() ==> kernel_result_probed(probe, #[trigger] r.kernels[i])
}

/// Checks every applicable policy against one kernel; `requested_kernel`
/// tells that the kernel was requested, `next_boot` that it is booted next.
pub fn check_kernel<P: SystemProbe + ?Sized>(
    kernel: Kernel,
    policies: &[ModulePolicy],
    probe: &P,
    requested_kernel: bool,
    next_boot: bool,
) -> (r: KernelResult)
    ensures
        kernel_result_valid(r@, kernel@, policies_view(policies@), requested_kernel, next_boot),
        kernel_result_probed(probe, r@),
{
    let ghost pv = policies_view(policies@);
    let mut results: Vec<ModuleResult> = Vec::new();
    for i in 0..policies.len()
        invariant
            pv == policies_view(policies@),
            pv.len() == policies.len(),
            forall|j: int|
                0 <= j < results@.len() ==> module_result_probed(
                    probe,
                    kernel@.uname,
                    (#[trigger] results@[j])@,
                ),
            results@.len() == applicable(pv.take(i as int), kernel@, requested_kernel, next_boot).len(),
            forall|j: int|
                0 <= j < results@.len() ==> (#[trigger] results@[j])@.policy == applicable(
                    pv.take(i as int),
                    kernel@,
                    requested_kernel,
                    next_boot,
                )[j] && module_result_valid(results@[j]@),
    {
        assert(pv.take(i + 1).drop_last() == pv.take(i as int));
        let policy = &policies[i];
        let for_kernel = if policy.next_boot_only {
            next_boot
        } else {
            !policy.important_kernels_only || kernel.running || kernel.latest || next_boot
        };
        if policy.enabled && (requested_kernel || for_kernel) {
            let m = check_module(&kernel, policy, probe);
            results.push(m);
        }
    }
    assert(pv.take(policies.len() as int) == pv);
    let r = KernelResult { kernel, module_results: results };
    let ghost app = applicable(pv, kernel@, requested_kernel, next_boot);
    assert forall|i: int| 0 <= i < app.len() implies (#[trigger] r@.module_results[i]).policy
        == app[i] && module_result_valid(r@.module_results[i]) by {
        assert(r@.module_results[i] == results@[i]@);
    }
    assert forall|j: int| 0 <= j < r@.module_results.len() implies module_result_probed(
        probe,
        r@.kernel.uname,
        #[trigger] r@.module_results[j],
    ) by {
        assert(r@.module_results[j] == results@[j]@);
    }
    r
}

/// The kernels whose release is `name`, in order.
pub open spec fn retain_uname(ks: Seq<KernelView>, name: Seq<char>) -> Seq<KernelView>
    decreases ks.len(),
{
    if ks.len() == 0 {
        Seq::empty()
    } else {
        let prev = retain_uname(ks.drop_last(), name);
        if ks.last().uname == name {
            prev.push(ks.last())
        } else {
            prev
        }
    }
}

/// The view of an optional string slice.
pub open spec fn opt_str_view(o: Option<&str>) -> Option<Seq<char>> {
    match o {
        Some(s) => Some(s@),
        None => None,
    }
}

/// The kernels to check: all of them, or those with the requested release.
pub open spec fn spec_selected(ks: Seq<KernelView>, requested: Option<Seq<char>>) -> Seq<
    KernelView,
> {
    match requested {
        Some(name) => retain_uname(ks, name),
        None => ks,
    }
}

/// Some policy is enabled.
pub open spec fn any_enabled(ps: Seq<ModulePolicyView>) -> bool {
    exists|i: int| 0 <= i < ps.len() && (#[trigger] ps[i]).enabled
}

/// The release of the first kernel of `ks` whose release is written in the
/// bootloader entry `entry`.
pub open spec fn entry_release(ks: Seq<KernelView>, entry: Seq<char>) -> Option<Seq<char>>
    decreases ks.len(),
{
    if ks.len() == 0 {
        None
    } else if ks[0].uname.len() > 0 && contains(entry, ks[0].uname) {
        Some(ks[0].uname)
    } else {
        entry_release(ks.drop_first(), entry)
    }
}

/// The release of the next-boot kernel among `ks`, for the bootloader's
/// default entry when one is known.
pub open spec fn next_boot_release(ks: Seq<KernelView>, entry: Option<Seq<char>>) -> Option<
    Seq<char>,
> {
    match entry {
        Some(e) => entry_release(ks, e),
        None => None,
    }
}

/// The release of the first kernel whose release is written in the
/// bootloader entry.
pub fn boot_entry_release(kernels: &Vec<Kernel>, entry: &str) -> (r: Option<String>)
    ensures
        entry_release(kernels_view(kernels@), entry@) == (match r {
            Some(s) => Some(s@),
            None => None,
        }),
{
    let ghost kv = kernels_view(kernels@);
    let e = chars_of(entry);
    let mut i: usize = 0;
    assert(kv.skip(0) == kv);
    while i < kernels.len()
        invariant
            kv == kernels_view(kernels@),
            kv.len() == kernels.len(),
            e@ == entry@,
            i <= kernels.len(),
            entry_release(kv, entry@) == entry_release(kv.skip(i as int), entry@),
        decreases kernels.len() - i,
    {
        let u = chars_of(kernels[i].uname.as_str());
        assert(kv.skip(i as int)[0] == kv[i as int]);
        assert(kv.skip(i as int).drop_first() == kv.skip(i + 1));
        if u.len() > 0 && contains_chars(e.as_slice(), u.as_slice()) {
            return Some(kernels[i].uname.clone());
        }
        i = i + 1;
    }
    None
}

/// The diagnostics of a check: a requested kernel that is not installed, a
/// bootloader default entry that names none of the kernels, and the lack of
/// any enabled policy, in that order.
pub open spec fn spec_diagnostics(
    selected: Seq<KernelView>,
    requested: Option<Seq<char>>,
    entry: Option<Seq<char>>,
    ps: Seq<ModulePolicyView>,
) -> Seq<Seq<char>> {
    (match requested {
        Some(name) => if selected.len() == 0 {
            seq!["requested kernel is not installed: "@ + name]
        } else {
            Seq::empty()
        },
        None => Seq::empty(),
    }) + (match entry {
        Some(e) => if entry_release(selected, e) is None {
            seq!["bootloader default entry matches no installed kernel: "@ + e]
        } else {
            Seq::empty()
        },
        None => Seq::empty(),
    }) + (if any_enabled(ps) {
        Seq::empty()
    } else {
        seq!["no enabled module policies detected"@]
    })
}

/// Whether the kernel `k` is the one booted next: the one that the next-boot
/// release names, or, when no next-boot release is known, a running or
/// latest one.
pub open spec fn boots_next(k: KernelView, next_boot: Option<Seq<char>>) -> bool {
    match next_boot {
        Some(n) => k.uname == n,
        None => k.running || k.latest,
    }
}

/// `res` is the outcome of checking the installed kernels, marked against the
/// running release and narrowed to the requested one, with the policies `ps`;
/// the kernel that the bootloader's default entry `entry` names is the one
/// booted next.
pub open spec fn check_outcome(
    res: CheckResultView,
    installed: Seq<KernelView>,
    running: Seq<char>,
    requested: Option<Seq<char>>,
    entry: Option<Seq<char>>,
    ps: Seq<ModulePolicyView>,
) -> bool {
    let selected = spec_selected(spec_annotate(installed, running), requested);
    let next_boot = next_boot_release(selected, entry);
    &&& res.diagnostics == spec_diagnostics(selected, requested, entry, ps)
    &&& res.kernels.len() == selected.len()
    &&& forall|i: int|
        0 <= i < selected.len() ==> kernel_result_valid(
            #[trigger] res.kernels[i],
            selected[i],
            ps,
            requested is Some,
            boots_next(selected[i], next_boot),
        )
}

/// The kernels whose release is `name`.
pub fn select_kernels(kernels: &Vec<Kernel>, name: &str) -> (r: Vec<Kernel>)
    ensures
        kernels_view(r@) == retain_uname(kernels_view(kernels@), name@),
{
    let ghost kv = kernels_view(kernels@);
    let mut out: Vec<Kernel> = Vec::new();
    for i in 0..kernels.len()
        invariant
            kv == kernels_view(kernels@),
            kv.len() == kernels.len(),
            kernels_view(out@) == retain_uname(kv.take(i as int), name@),
    {
        assert(kv.take(i + 1).drop_last() == kv.take(i as int));
        if eq_str(kernels[i].uname.as_str(), name) {
            let ghost before = out@;
            out.push(kernels[i].duplicate());
            assert(kernels_view(out@) == kernels_view(before).push(kv[i as int]));
        }
    }
    assert(kv.take(kernels.len() as int) == kv);
    out
}

/// Some policy in the list is enabled.
pub fn has_enabled_policy(ps: &[ModulePolicy]) -> (r: bool)
    ensures
        r == any_enabled(policies_view(ps@)),
{
    let ghost pv = policies_view(ps@);
    for i in 0..ps.len()
        invariant
            pv == policies_view(ps@),
            pv.len() == ps.len(),
            forall|j: int| 0 <= j < i ==> !(#[trigger] pv[j]).enabled,
    {
        if ps[i].enabled {
            assert(pv[i as int].enabled);
            return true;
        }
    }
    false
}

/// Checks the installed kernels, given what the probe reported about them,
/// about the running release and about the bootloader's default entry,
/// against the policies; the probe is still asked about each module.
pub fn check_system<P: SystemProbe + ?Sized>(
    probe: &P,
    installed: Vec<Kernel>,
    running: &str,
    requested_kernel: Option<&str>,
    boot_entry: Option<&str>,
    policies: &[ModulePolicy],
) -> (r: CheckResult)
    ensures
        check_outcome(
            r@,
            kernels_view(installed@),
            running@,
            opt_str_view(requested_kernel),
            opt_str_view(boot_entry),
            policies_view(policies@),
        ),
        results_probed(probe, r@),
{
    let ghost pv = policies_view(policies@);
    let ghost requested = opt_str_view(requested_kernel);
    let ghost entry = opt_str_view(boot_entry);
    let mut diagnostics: Vec<String> = Vec::new();
    let mut kernels = annotate_kernels(installed, running);
    match requested_kernel {
        Some(name) => {
            kernels = select_kernels(&kernels, name);
            if kernels.len() == 0 {
                let mut d = String::from_str("requested kernel is not installed: ");
                d.append(name);
                diagnostics.push(d);
            }
        },
        None => {},
    }
    let ghost selected = kernels_view(kernels@);
    assert(selected == spec_selected(spec_annotate(kernels_view(installed@), running@), requested));
    let next_boot: Option<String> = match boot_entry {
        Some(e) => {
            let found = boot_entry_release(&kernels, e);
            if found.is_none() {
                let mut d = String::from_str("bootloader default entry matches no installed kernel: ");
                d.append(e);
                diagnostics.push(d);
            }
            found
        },
        None => None,
    };
    let ghost nb = next_boot_release(selected, entry);
    assert(nb == (match next_boot {
        Some(s) => Some(s@),
        None => None::<Seq<char>>,
    }));
    if !has_enabled_policy(policies) {
        diagnostics.push(String::from_str("no enabled module policies detected"));
    }
    assert(diagnostics@.map_values(|s: String| s@) == spec_diagnostics(selected, requested, entry, pv));
    let mut results: Vec<KernelResult> = Vec::new();
    for i in 0..kernels.len()
        invariant
            pv == policies_view(policies@),
            selected == kernels_view(kernels@),
            selected.len() == kernels.len(),
            nb == (match next_boot {
                Some(s) => Some(s@),
                None => None::<Seq<char>>,
            }),
            results@.len() == i,
            forall|j: int| 0 <= j < i ==> kernel_result_probed(probe, (#[trigger] results@[j])@),
            forall|j: int|
                0 <= j < i ==> kernel_result_valid(
                    (#[trigger] results@[j])@,
                    selected[j],
                    pv,
                    requested_kernel.is_some(),
                    boots_next(selected[j], nb),
                ),
    {
        let is_next_boot = match &next_boot {
            Some(n) => eq_str(n.as_str(), kernels[i].uname.as_str()),
            None => kernels[i].running || kernels[i].latest,
        };
        assert(is_next_boot == boots_next(selected[i as int], nb));
        let k = kernels[i].duplicate();
        results.push(check_kernel(k, policies, probe, requested_kernel.is_some(), is_next_boot));
    }
    let r = CheckResult { kernels: results, diagnostics };
    assert forall|i: int| 0 <= i < selected.len() implies kernel_result_valid(
        #[trigger] r@.kernels[i],
        selected[i],
        pv,
        requested is Some,
        boots_next(selected[i], nb),
    ) by {
        assert(r@.kernels[i] == results@[i]@);
    }
    assert forall|i: int| 0 <= i < r@.kernels.len() implies kernel_result_probed(
        probe,
        #[trigger] r@.kernels[i],
    ) by {
        assert(r@.kernels[i] == results@[i]@);
    }
    r
}

/// The answers a probe gives during a run: the installed kernels, the
/// running release, the bootloader's default entry (asked only when no
/// kernel is requested), the type of `/` (asked for the built-in policies),
/// the NVIDIA packages, the KMP modules, the type of `/` (asked again for the
/// generic policies) and the file system table.
pub struct RunAnswers {
    pub installed: Seq<KernelView>,
    pub running: Seq<char>,
    pub boot_entry: Option<Seq<char>>,
    pub root_fstype: Seq<char>,
    pub nvidia: bool,
    pub kmp_modules: Seq<KmpModuleView>,
    pub generic_root_fstype: Seq<char>,
    pub fstab: Seq<char>,
}

/// Each of the answers is one the probe gives to the question it answers.
pub open spec fn answers_given<P: SystemProbe + ?Sized>(probe: &P, a: RunAnswers) -> bool {
    &&& kernels_answer(probe, a.installed)
    &&& running_answer(probe, a.running)
    &&& root_fstype_answer(probe, a.root_fstype)
    &&& package_answer(probe, nvidia_patterns(), a.nvidia)
    &&& kmp_modules_answer(probe, a.kmp_modules)
    &&& root_fstype_answer(probe, a.generic_root_fstype)
    &&& fstab_answer(probe, a.fstab)
}

/// The policies of a run: the built-in ones for the modules that no extra
/// policy names, then the extra ones, then the generic ones for the KMP
/// modules that none of these covers.
pub open spec fn spec_run_policies(a: RunAnswers, extra: Seq<ModulePolicyView>) -> Seq<
    ModulePolicyView,
> {
    let base = without_modules(spec_builtin_policies(a.root_fstype, a.nvidia), policy_modules(extra))
        + extra;
    base + spec_generic_kmp_policies(
        a.kmp_modules,
        policy_modules(base),
        a.generic_root_fstype,
        spec_boot_fstypes(a.fstab),
    )
}

/// Runs the whole check: marks the installed kernels, narrows them to the
/// requested release or, when none is requested, asks for the bootloader's
/// default entry, gathers the built-in, extra and generic KMP policies, and
/// checks each kernel against them.
///
/// The result is the outcome of the check for the answers the probe gave,
/// and every module result records the probe's answers for its kernel and
/// module.
pub fn run_checks<P: SystemProbe + ?Sized>(
    probe: &P,
    requested_kernel: Option<&str>,
    extra_policies: Vec<ModulePolicy>,
) -> (r: CheckResult)
    ensures
        exists|a: RunAnswers|
            answers_given(probe, a) && (if requested_kernel is Some {
                a.boot_entry is None
            } else {
                boot_entry_answer(probe, a.boot_entry)
            }) && check_outcome(
                r@,
                a.installed,
                a.running,
                opt_str_view(requested_kernel),
                a.boot_entry,
                spec_run_policies(a, policies_view(extra_policies@)),
            ),
        results_probed(probe, r@),
{
    let ghost extra = policies_view(extra_policies@);
    let installed = probe.installed_kernels();
    let running = probe.running_kernel();
    let boot_entry: Option<String> = if requested_kernel.is_none() {
        probe.default_boot_entry()
    } else {
        None
    };
    let entry: Option<&str> = match &boot_entry {
        Some(e) => Some(e.as_str()),
        None => None,
    };
    let all_builtin = builtin_policies(probe);
    let ghost builtin = policies_view(all_builtin@);
    let mut policies = drop_configured(all_builtin, extra_policies.as_slice());
    let ghost kept = policies_view(policies@);
    let mut extra_owned = extra_policies;
    policies.append(&mut extra_owned);
    let ghost base = policies_view(policies@);
    assert(base == kept + extra);
    let mut generic = generic_kmp_policies(probe, policies.as_slice());
    let ghost gen = policies_view(generic@);
    policies.append(&mut generic);
    assert(policies_view(policies@) == base + gen);
    let ghost installed_view = kernels_view(installed@);
    let ghost running_view = running@;
    let ghost entry_view = opt_str_view(entry);
    proof {
        assert(kernels_answer(probe, installed_view));
        assert(running_answer(probe, running_view));
        if requested_kernel is None {
            assert(boot_entry_answer(probe, entry_view));
        }
    }
    let r = check_system(
        probe,
        installed,
        running.as_str(),
        requested_kernel,
        entry,
        policies.as_slice(),
    );
    proof {
        let (fs, nvidia) = choose|fs: Seq<char>, nvidia: bool|
            root_fstype_answer(probe, fs) && package_answer(probe, nvidia_patterns(), nvidia)
                && builtin == spec_builtin_policies(fs, nvidia);
        let (mods, gfs, tab) = choose|mods: Seq<KmpModuleView>, gfs: Seq<char>, tab: Seq<char>|
            kmp_modules_answer(probe, mods) && root_fstype_answer(probe, gfs) && fstab_answer(
                probe,
                tab,
            ) && gen == spec_generic_kmp_policies(
                mods,
                policy_modules(base),
                gfs,
                spec_boot_fstypes(tab),
            );
        let a = RunAnswers {
            installed: installed_view,
            running: running_view,
            boot_entry: entry_view,
            root_fstype: fs,
            nvidia,
            kmp_modules: mods,
            generic_root_fstype: gfs,
            fstab: tab,
        };
        assert(answers_given(probe, a));
        assert(policies_view(policies@) == spec_run_policies(a, extra));
        assert(check_outcome(
            r@,
            a.installed,
            a.running,
            opt_str_view(requested_kernel),
            a.boot_entry,
            spec_run_policies(a, extra),
        ));
    }
    r
}

/// The order on character sequences is total.
pub proof fn lemma_seq_lt_total(a: Seq<char>, b: Seq<char>)
    ensures
        a == b || seq_lt(a, b) || seq_lt(b, a),
    decreases a.len(),
{
    if a.len() > 0 && b.len() > 0 && a[0] == b[0] {
        lemma_seq_lt_total(a.drop_first(), b.drop_first());
        if a.drop_first() == b.drop_first() {
            assert(a == seq![a[0]] + a.drop_first());
            assert(b == seq![b[0]] + b.drop_first());
        }
    } else if a.len() == 0 && b.len() == 0 {
        assert(a == b);
    }
}

/// The order on character sequences is asymmetric.
pub proof fn lemma_seq_lt_asymmetric(a: Seq<char>, b: Seq<char>)
    ensures
        !(seq_lt(a, b) && seq_lt(b, a)),
    decreases a.len(),
{
    if a.len() > 0 && b.len() > 0 && a[0] == b[0] {
        lemma_seq_lt_asymmetric(a.drop_first(), b.drop_first());
    }
}

/// The order on character sequences is transitive.
pub proof fn lemma_seq_lt_transitive(a: Seq<char>, b: Seq<char>, c: Seq<char>)
    requires
        seq_lt(a, b),
        seq_lt(b, c),
    ensures
        seq_lt(a, c),
    decreases a.len(),
{
    if a.len() > 0 && b.len() > 0 && c.len() > 0 && a[0] == b[0] && b[0] == c[0] {
        lemma_seq_lt_transitive(a.drop_first(), b.drop_first(), c.drop_first());
    }
}

/// The latest kernel comes after no other kernel in the kernel order.
pub proof fn lemma_latest_index_greatest(ks: Seq<KernelView>)
    requires
        ks.len() > 0,
    ensures
        0 <= latest_index(ks) < ks.len(),
        forall|j: int| 0 <= j < ks.len() ==> !kernel_before(ks[latest_index(ks)], #[trigger] ks[j]),
    decreases ks.len(),
{
    lemma_latest_index_bounds(ks);
    if ks.len() == 1 {
        lemma_seq_lt_irreflexive(ks[0].uname);
    } else {
        let d = ks.drop_last();
        lemma_latest_index_greatest(d);
        let m = d[latest_index(d)];
        let last = ks.last();
        assert forall|j: int| 0 <= j < ks.len() implies !kernel_before(
            ks[latest_index(ks)],
            #[trigger] ks[j],
        ) by {
            if kernel_before(last, m) {
                if j == ks.len() - 1 {
                    if kernel_before(m, last) {
                        if m.install_time == last.install_time {
                            lemma_seq_lt_asymmetric(m.uname, last.uname);
                        }
                    }
                } else {
                    assert(ks[j] == d[j]);
                }
            } else {
                if j == ks.len() - 1 {
                    lemma_seq_lt_irreflexive(last.uname);
                } else {
                    assert(ks[j] == d[j]);
                    let x = ks[j];
                    assert(!kernel_before(m, x));
                    lemma_seq_lt_total(last.uname, m.uname);
                    if kernel_before(last, x) {
                        if kernel_before(m, last) {
                            if m.install_time == last.install_time && last.install_time
                                == x.install_time {
                                lemma_seq_lt_transitive(m.uname, last.uname, x.uname);
                            }
                        }
                    }
                }
            }
        }
    }
}

/// The order on character sequences is irreflexive.
pub proof fn lemma_seq_lt_irreflexive(a: Seq<char>)
    ensures
        !seq_lt(a, a),
    decreases a.len(),
{
    if a.len() > 0 {
        lemma_seq_lt_irreflexive(a.drop_first());
    }
}

/// Among kernels with distinct releases, exactly one is marked latest when
/// any is installed, and no kernel comes after it in the order of install
/// time, then release; `running` marks exactly the kernels with the running
/// release.
pub proof fn lemma_latest_marks_greatest(ks: Seq<KernelView>, running: Seq<char>)
    requires
        forall|i: int, j: int| 0 <= i < j < ks.len() ==> ks[i].uname != ks[j].uname,
    ensures
        ks.len() > 0 ==> exists|i: int|
            0 <= i < ks.len() && (#[trigger] spec_annotate(ks, running)[i]).latest,
        forall|i: int, j: int|
            0 <= i < ks.len() && 0 <= j < ks.len() && (#[trigger] spec_annotate(ks, running)[i]).latest
                ==> !kernel_before(ks[i], #[trigger] ks[j]),
        forall|i: int, j: int|
            0 <= i < ks.len() && 0 <= j < ks.len() && (#[trigger] spec_annotate(ks, running)[i]).latest
                && (#[trigger] spec_annotate(ks, running)[j]).latest ==> i == j,
        forall|i: int|
            0 <= i < ks.len() ==> ((#[trigger] spec_annotate(ks, running)[i]).running <==> ks[i].uname
                == running),
{
    if ks.len() > 0 {
        lemma_latest_index_greatest(ks);
        let li = latest_index(ks);
        assert(spec_annotate(ks, running)[li].latest);
        assert forall|i: int, j: int|
            0 <= i < ks.len() && 0 <= j < ks.len() && (#[trigger] spec_annotate(
                ks,
                running,
            )[i]).latest implies !kernel_before(ks[i], #[trigger] ks[j]) by {
            if i != li {
                if i < li {
                    assert(ks[i].uname != ks[li].uname);
                } else {
                    assert(ks[li].uname != ks[i].uname);
                }
            }
        }
        assert forall|i: int, j: int|
            0 <= i < ks.len() && 0 <= j < ks.len() && (#[trigger] spec_annotate(
                ks,
                running,
            )[i]).latest && (#[trigger] spec_annotate(ks, running)[j]).latest implies i == j by {
            if i != li {
                if i < li {
                    assert(ks[i].uname != ks[li].uname);
                } else {
                    assert(ks[li].uname != ks[i].uname);
                }
            }
            if j != li {
                if j < li {
                    assert(ks[j].uname != ks[li].uname);
                } else {
                    assert(ks[li].uname != ks[j].uname);
                }
            }
        }
    }
}

/// Every policy that applies to a kernel is a policy of the list, and
/// applies to it.
pub proof fn lemma_applicable_members(
    ps: Seq<ModulePolicyView>,
    k: KernelView,
    requested: bool,
    next_boot: bool,
)
    ensures
        forall|i: int|
            0 <= i < applicable(ps, k, requested, next_boot).len() ==> policy_applies(
                #[trigger] applicable(ps, k, requested, next_boot)[i],
                k,
                requested,
                next_boot,
            ) && ps.contains(applicable(ps, k, requested, next_boot)[i]),
    decreases ps.len(),
{
    if ps.len() > 0 {
        lemma_applicable_members(ps.drop_last(), k, requested, next_boot);
        let prev = applicable(ps.drop_last(), k, requested, next_boot);
        let app = applicable(ps, k, requested, next_boot);
        assert forall|i: int| 0 <= i < app.len() implies policy_applies(
            #[trigger] app[i],
            k,
            requested,
            next_boot,
        ) && ps.contains(app[i]) by {
            if i < prev.len() {
                assert(app[i] == prev[i]);
                let w = choose|w: int| 0 <= w < ps.drop_last().len() && ps.drop_last()[w] == prev[i];
                assert(ps[w] == prev[i]);
            } else {
                assert(ps[ps.len() - 1] == ps.last());
            }
        }
    }
}

/// The kernels kept for a requested release all have that release.
pub proof fn lemma_retain_uname(ks: Seq<KernelView>, name: Seq<char>)
    ensures
        forall|i: int|
            0 <= i < retain_uname(ks, name).len() ==> (#[trigger] retain_uname(ks, name)[i]).uname
                == name,
    decreases ks.len(),
{
    if ks.len() > 0 {
        lemma_retain_uname(ks.drop_last(), name);
        let prev = retain_uname(ks.drop_last(), name);
        assert forall|i: int| 0 <= i < retain_uname(ks, name).len() implies (
        #[trigger] retain_uname(ks, name)[i]).uname == name by {
            if i < prev.len() {
                assert(retain_uname(ks, name)[i] == prev[i]);
            }
        }
    }
}

/// In the outcome of a check, each module result is about an enabled policy
/// of the run; a policy restricted to the important kernels is checked only
/// on a running, latest, requested or next-boot kernel, and a next-boot
/// policy only on a requested or next-boot kernel; and when a release is
/// requested, only kernels with that release are checked.
pub proof fn lemma_checked_policies_apply(
    res: CheckResultView,
    installed: Seq<KernelView>,
    running: Seq<char>,
    requested: Option<Seq<char>>,
    entry: Option<Seq<char>>,
    ps: Seq<ModulePolicyView>,
    i: int,
    j: int,
)
    requires
        check_outcome(res, installed, running, requested, entry, ps),
        0 <= i < res.kernels.len(),
        0 <= j < res.kernels[i].module_results.len(),
    ensures
        ({
            let p = res.kernels[i].module_results[j].policy;
            let k = res.kernels[i].kernel;
            let next = boots_next(
                k,
                next_boot_release(spec_selected(spec_annotate(installed, running), requested), entry),
            );
            &&& ps.contains(p)
            &&& p.enabled
            &&& p.important_kernels_only ==> (k.running || k.latest || requested is Some || next)
            &&& p.next_boot_only ==> (requested is Some || next)
        }),
        requested matches Some(name) ==> res.kernels[i].kernel.uname == name,
{
    let selected = spec_selected(spec_annotate(installed, running), requested);
    let next = boots_next(selected[i], next_boot_release(selected, entry));
    assert(kernel_result_valid(res.kernels[i], selected[i], ps, requested is Some, next));
    let k = selected[i];
    lemma_applicable_members(ps, k, requested is Some, next);
    assert(res.kernels[i].module_results[j].policy == applicable(ps, k, requested is Some, next)[j]);
    match requested {
        Some(name) => {
            lemma_retain_uname(spec_annotate(installed, running), name);
        },
        None => {},
    }
}

/// A root file system policy makes a missing module, or a module missing
/// from the initrd, a boot risk, and an initrd that cannot be inspected an
/// undetermined result.
pub proof fn lemma_rootfs_module_needs_initrd(fs: Seq<char>, initrd_found: Option<bool>)
    ensures
        spec_module_result(rootfs_policy(fs), false, initrd_found).severity == Severity::BootRisk,
        spec_module_result(rootfs_policy(fs), true, Some(false)).severity == Severity::BootRisk,
        spec_module_result(rootfs_policy(fs), true, None).severity == Severity::Unknown,
        spec_module_result(rootfs_policy(fs), true, Some(true)).severity == Severity::Okay,
{
}


/// A check reports that no policy is enabled exactly when none is, and then
/// as its last diagnostic; the only others it can give are that the
/// requested kernel is not installed, which comes first, and that the
/// bootloader's default entry names no installed kernel.
pub proof fn lemma_outcome_diagnostics(
    res: CheckResultView,
    installed: Seq<KernelView>,
    running: Seq<char>,
    requested: Option<Seq<char>>,
    entry: Option<Seq<char>>,
    ps: Seq<ModulePolicyView>,
)
    requires
        check_outcome(res, installed, running, requested, entry, ps),
    ensures
        res.diagnostics.contains("no enabled module policies detected"@) <==> !any_enabled(ps),
        !any_enabled(ps) ==> res.diagnostics.last() == "no enabled module policies detected"@,
        res.diagnostics.len() <= 3,
        forall|i: int|
            0 <= i < res.diagnostics.len() ==> {
                ||| #[trigger] res.diagnostics[i] == "no enabled module policies detected"@
                ||| i == 0 && requested is Some && res.diagnostics[i]
                    == "requested kernel is not installed: "@ + requested->0
                ||| entry is Some && res.diagnostics[i]
                    == "bootloader default entry matches no installed kernel: "@ + entry->0
            },
{
    reveal_strlit("no enabled module policies detected");
    reveal_strlit("requested kernel is not installed: ");
    reveal_strlit("bootloader default entry matches no installed kernel: ");
    let none = "no enabled module policies detected"@;
    let d = res.diagnostics;
    if let Some(name) = requested {
        let missing = "requested kernel is not installed: "@ + name;
        assert(missing[0] != none[0]);
        assert(missing != none);
    }
    if let Some(e) = entry {
        let unmatched = "bootloader default entry matches no installed kernel: "@ + e;
        assert(unmatched[0] != none[0]);
        assert(unmatched != none);
    }
    if !any_enabled(ps) {
        assert(d[d.len() - 1] == none);
    } else if d.contains(none) {
        let i = choose|i: int| 0 <= i < d.len() && d[i] == none;
        assert(d[i] == none);
    }
}


/// A configured policy for a module takes the place of the automatic ones
/// for it: when every configured policy for `m` is disabled (such as by
/// `enabled = false`), no enabled policy of the run is for `m`.
pub proof fn lemma_disabled_module_unchecked(
    a: RunAnswers,
    extra: Seq<ModulePolicyView>,
    m: Seq<char>,
)
    requires
        policy_modules(extra).contains(m),
        forall|i: int| 0 <= i < extra.len() && (#[trigger] extra[i]).module == m ==> !extra[i].enabled,
    ensures
        forall|i: int|
            0 <= i < spec_run_policies(a, extra).len() && (#[trigger] spec_run_policies(a, extra)[i]).module
                == m ==> !spec_run_policies(a, extra)[i].enabled,
{
    let kept = without_modules(spec_builtin_policies(a.root_fstype, a.nvidia), policy_modules(extra));
    let base = kept + extra;
    let existing = policy_modules(base);
    let gen = spec_generic_kmp_policies(
        a.kmp_modules,
        existing,
        a.generic_root_fstype,
        spec_boot_fstypes(a.fstab),
    );
    let run = spec_run_policies(a, extra);
    assert(run == base + gen);
    lemma_without_modules(spec_builtin_policies(a.root_fstype, a.nvidia), policy_modules(extra));
    lemma_generic_policies_shape(a.kmp_modules, existing, a.generic_root_fstype, spec_boot_fstypes(a.fstab));
    let j = choose|j: int| 0 <= j < policy_modules(extra).len() && policy_modules(extra)[j] == m;
    assert(existing[kept.len() + j] == m);
    assert forall|i: int| 0 <= i < run.len() && (#[trigger] run[i]).module == m implies !run[i].enabled by {
        if i < kept.len() {
            assert(run[i] == kept[i]);
        } else if i < base.len() {
            assert(run[i] == extra[i - kept.len()]);
        } else {
            assert(run[i] == gen[i - base.len()]);
        }
    }
}


/// The configured policies of a run are all among its policies, and so is
/// every built-in policy for a module that no configured policy names: a
/// configured policy only takes the place of the built-in one for its own
/// module.
pub proof fn lemma_run_keeps_policies(a: RunAnswers, extra: Seq<ModulePolicyView>)
    ensures
        forall|p: ModulePolicyView|
            #[trigger] extra.contains(p) ==> spec_run_policies(a, extra).contains(p),
        forall|p: ModulePolicyView|
            #[trigger] spec_builtin_policies(a.root_fstype, a.nvidia).contains(p)
                && !policy_modules(extra).contains(p.module) ==> spec_run_policies(a, extra).contains(p),
{
    let builtin = spec_builtin_policies(a.root_fstype, a.nvidia);
    let kept = without_modules(builtin, policy_modules(extra));
    let base = kept + extra;
    let gen = spec_generic_kmp_policies(
        a.kmp_modules,
        policy_modules(base),
        a.generic_root_fstype,
        spec_boot_fstypes(a.fstab),
    );
    let run = spec_run_policies(a, extra);
    assert(run == base + gen);
    lemma_without_modules_members(builtin, policy_modules(extra));
    assert forall|p: ModulePolicyView| #[trigger] extra.contains(p) implies run.contains(p) by {
        let j = choose|j: int| 0 <= j < extra.len() && extra[j] == p;
        assert(run[kept.len() + j] == p);
    }
    assert forall|p: ModulePolicyView|
        #[trigger] builtin.contains(p) && !policy_modules(extra).contains(p.module) implies run.contains(
        p,
    ) by {
        assert(kept.contains(p));
        let j = choose|j: int| 0 <= j < kept.len() && kept[j] == p;
        assert(run[j] == p);
    }
}

} // verus!
