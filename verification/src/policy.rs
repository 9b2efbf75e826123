use crate::model::{
    kmp_modules_view, policies_view, InitrdPolicy, KmpModule, KmpModuleView, ModulePolicy,
    ModulePolicyView, Severity,
};
use crate::probe::{
    fstab_answer, kmp_modules_answer, package_answer, root_fstype_answer, SystemProbe,
};
use crate::text::{
    chars_of, eq_chars, eq_str, lines, lines_chars, split, split_chars, starts_with,
    starts_with_chars, string_of, sub_vec, trim, trim_chars, views, words, words_chars,
};
use vstd::prelude::*;

verus! {

/// The policy for a root file system whose module must be in the initrd.
pub open spec fn rootfs_policy(fs: Seq<char>) -> ModulePolicyView {
    ModulePolicyView {
        name: fs,
        module: fs,
        enabled: true,
        initrd: InitrdPolicy::Required,
        severity: Severity::BootRisk,
        reason: "/ is mounted as "@ + fs,
        important_kernels_only: false,
        next_boot_only: false,
    }
}

/// The policy for installed NVIDIA packages.
pub open spec fn nvidia_policy() -> ModulePolicyView {
    ModulePolicyView {
        name: "nvidia"@,
        module: "nvidia"@,
        enabled: true,
        initrd: InitrdPolicy::Optional,
        severity: Severity::Warning,
        reason: "NVIDIA packages are installed"@,
        important_kernels_only: false,
        next_boot_only: false,
    }
}

/// The built-in policies: bcachefs when `/` is bcachefs, nvidia when NVIDIA
/// packages are installed, zfs when `/` is zfs, in that order.
pub open spec fn spec_builtin_policies(root_fstype: Seq<char>, nvidia_installed: bool) -> Seq<
    ModulePolicyView,
> {
    (if root_fstype == "bcachefs"@ {
        seq![rootfs_policy("bcachefs"@)]
    } else {
        Seq::empty()
    }) + (if nvidia_installed {
        seq![nvidia_policy()]
    } else {
        Seq::empty()
    }) + (if root_fstype == "zfs"@ {
        seq![rootfs_policy("zfs"@)]
    } else {
        Seq::empty()
    })
}

/// A string holding the given literal.
fn owned(s: &str) -> (r: String)
    ensures
        r@ == s@,
{
    String::from_str(s)
}

/// The policy for a root file system whose module must be in the initrd.
fn rootfs_module_policy(fs: &str) -> (r: ModulePolicy)
    ensures
        r@ == rootfs_policy(fs@),
{
    let mut reason = owned("/ is mounted as ");
    reason.append(fs);
    ModulePolicy {
        name: owned(fs),
        module: owned(fs),
        enabled: true,
        initrd: InitrdPolicy::Required,
        severity: Severity::BootRisk,
        reason,
        important_kernels_only: false,
        next_boot_only: false,
    }
}

/// The built-in policies for the given root file system type and the
/// answer to whether NVIDIA packages are installed.
pub fn builtin_policies_for(root_fstype: &str, nvidia_installed: bool) -> (r: Vec<ModulePolicy>)
    ensures
        policies_view(r@) == spec_builtin_policies(root_fstype@, nvidia_installed),
{
    let mut policies: Vec<ModulePolicy> = Vec::new();
    let ghost fs = root_fstype@;
    let bcachefs = "bcachefs";
    let zfs = "zfs";
    let is_bcachefs = eq_str(root_fstype, bcachefs);
    if is_bcachefs {
        policies.push(rootfs_module_policy(bcachefs));
    }
    let ghost first = policies_view(policies@);
    assert(first == (if fs == "bcachefs"@ {
        seq![rootfs_policy("bcachefs"@)]
    } else {
        Seq::<ModulePolicyView>::empty()
    }));
    if nvidia_installed {
        policies.push(ModulePolicy {
            name: owned("nvidia"),
            module: owned("nvidia"),
            enabled: true,
            initrd: InitrdPolicy::Optional,
            severity: Severity::Warning,
            reason: owned("NVIDIA packages are installed"),
            important_kernels_only: false,
            next_boot_only: false,
        });
    }
    let ghost second = policies_view(policies@);
    assert(second == first + (if nvidia_installed {
        seq![nvidia_policy()]
    } else {
        Seq::<ModulePolicyView>::empty()
    }));
    if eq_str(root_fstype, zfs) {
        policies.push(rootfs_module_policy(zfs));
    }
    assert(policies_view(policies@) == second + (if fs == "zfs"@ {
        seq![rootfs_policy("zfs"@)]
    } else {
        Seq::<ModulePolicyView>::empty()
    }));
    policies
}

/// The built-in policies for the probed system.
///
/// The result is the built-in list for the probe's answer about the type of
/// `/` and its answer about the NVIDIA packages `nvidia*` and
/// `*nvidia*kmp*`.
pub fn builtin_policies<P: SystemProbe + ?Sized>(probe: &P) -> (r: Vec<ModulePolicy>)
    ensures
        exists|fs: Seq<char>, nvidia: bool|
            root_fstype_answer(probe, fs) && package_answer(probe, nvidia_patterns(), nvidia)
                && policies_view(r@) == spec_builtin_policies(fs, nvidia),
{
    let root_fstype = probe.root_fstype();
    let mut patterns: Vec<String> = Vec::new();
    patterns.push(owned("nvidia*"));
    patterns.push(owned("*nvidia*kmp*"));
    assert(patterns@.map_values(|x: String| x@) == nvidia_patterns());
    let nvidia = probe.has_installed_package(patterns.as_slice());
    let r = builtin_policies_for(root_fstype.as_str(), nvidia);
    assert(root_fstype_answer(probe, root_fstype@));
    assert(package_answer(probe, nvidia_patterns(), nvidia));
    assert(policies_view(r@) == spec_builtin_policies(root_fstype@, nvidia));
    r
}

/// The package patterns that show installed NVIDIA drivers.
pub open spec fn nvidia_patterns() -> Seq<Seq<char>> {
    seq!["nvidia*"@, "*nvidia*kmp*"@]
}

/// The modules that a list of policies is about, in order.
pub open spec fn policy_modules(ps: Seq<ModulePolicyView>) -> Seq<Seq<char>> {
    ps.map_values(|p: ModulePolicyView| p.module)
}

/// The policy for a module that a KMP package provides. A module for the
/// file system of `/` is a boot risk and must be in the initrd; a module for
/// the file system of another boot-required mount is a boot risk; both apply
/// to every kernel. Any other module gives a warning for the important
/// kernels only.
pub open spec fn kmp_policy(
    m: KmpModuleView,
    root_fstype: Seq<char>,
    boot_fstypes: Seq<Seq<char>>,
) -> ModulePolicyView {
    let installed = "KMP package is installed: "@ + m.package;
    if m.module == root_fstype {
        ModulePolicyView {
            name: "kmp:"@ + m.module,
            module: m.module,
            enabled: true,
            initrd: InitrdPolicy::Required,
            severity: Severity::BootRisk,
            reason: installed + "; / is mounted as "@ + m.module,
            important_kernels_only: false,
            next_boot_only: false,
        }
    } else if boot_fstypes.contains(m.module) {
        ModulePolicyView {
            name: "kmp:"@ + m.module,
            module: m.module,
            enabled: true,
            initrd: InitrdPolicy::Optional,
            severity: Severity::BootRisk,
            reason: installed + "; a boot-required mount uses "@ + m.module,
            important_kernels_only: false,
            next_boot_only: false,
        }
    } else {
        ModulePolicyView {
            name: "kmp:"@ + m.module,
            module: m.module,
            enabled: true,
            initrd: InitrdPolicy::Optional,
            severity: Severity::Warning,
            reason: installed,
            important_kernels_only: true,
            next_boot_only: false,
        }
    }
}

/// One policy per KMP module, in order, for each module that no existing
/// policy covers and that no earlier KMP module already gave a policy.
pub open spec fn spec_generic_kmp_policies(
    mods: Seq<KmpModuleView>,
    existing: Seq<Seq<char>>,
    root_fstype: Seq<char>,
    boot_fstypes: Seq<Seq<char>>,
) -> Seq<ModulePolicyView>
    decreases mods.len(),
{
    if mods.len() == 0 {
        Seq::empty()
    } else {
        let prev = spec_generic_kmp_policies(mods.drop_last(), existing, root_fstype, boot_fstypes);
        let m = mods.last();
        if existing.contains(m.module) || policy_modules(prev).contains(m.module) {
            prev
        } else {
            prev.push(kmp_policy(m, root_fstype, boot_fstypes))
        }
    }
}

/// The options field of a mount names `option` among its comma-separated
/// options.
pub open spec fn has_mount_option(options: Seq<char>, option: Seq<char>) -> bool {
    split(options, ',').contains(option)
}

/// The file system type of a boot-required mount on a line of the file
/// system table: a line that is not blank or a `#` comment, has at least the
/// device, mount point and type fields, and whose options (when given) do not
/// include `nofail`.
pub open spec fn boot_mount_fstype(line: Seq<char>) -> Option<Seq<char>> {
    let t = trim(line);
    let w = words(t);
    if t.len() == 0 || starts_with(t, "#"@) || w.len() < 3 {
        None
    } else if w.len() >= 4 && has_mount_option(w[3], "nofail"@) {
        None
    } else {
        Some(w[2])
    }
}

/// The file system types of the boot-required mounts, line by line.
pub open spec fn boot_fstypes_of(ls: Seq<Seq<char>>) -> Seq<Seq<char>>
    decreases ls.len(),
{
    if ls.len() == 0 {
        Seq::empty()
    } else {
        let prev = boot_fstypes_of(ls.drop_last());
        match boot_mount_fstype(ls.last()) {
            Some(t) => prev.push(t),
            None => prev,
        }
    }
}

/// The file system types of the boot-required mounts in a file system table.
pub open spec fn spec_boot_fstypes(fstab: Seq<char>) -> Seq<Seq<char>> {
    boot_fstypes_of(lines(fstab))
}

/// Some piece is `option`.
fn lists_option(pieces: &Vec<Vec<char>>, option: &[char]) -> (r: bool)
    ensures
        r == views(pieces@).contains(option@),
{
    let ghost pv = views(pieces@);
    for i in 0..pieces.len()
        invariant
            pv == views(pieces@),
            pv.len() == pieces.len(),
            forall|k: int| 0 <= k < i ==> pv[k] != option@,
    {
        if eq_chars(pieces[i].as_slice(), option) {
            assert(pv[i as int] == option@);
            return true;
        }
    }
    false
}

/// The file system type of the boot-required mount on one line.
fn boot_mount_line(line: &[char]) -> (r: Option<Vec<char>>)
    ensures
        r matches Some(t) ==> boot_mount_fstype(line@) == Some(t@),
        r is None ==> boot_mount_fstype(line@) is None,
{
    let t = trim_chars(line);
    let hash = chars_of("#");
    let nofail = chars_of("nofail");
    let w = words_chars(t.as_slice());
    let ghost wv = views(w@);
    if t.len() == 0 || starts_with_chars(t.as_slice(), hash.as_slice()) || w.len() < 3 {
        return None;
    }
    if w.len() >= 4 {
        let opts = split_chars(w[3].as_slice(), ',');
        if lists_option(&opts, nofail.as_slice()) {
            assert(wv[3] == w@[3]@);
            return None;
        }
        assert(wv[3] == w@[3]@);
    }
    assert(wv[2] == w@[2]@);
    Some(sub_vec(w[2].as_slice(), 0, w[2].len()))
}

/// The file system types of the boot-required mounts in a file system table
/// (`/etc/fstab`).
pub fn boot_mount_fstypes(fstab: &str) -> (r: Vec<String>)
    ensures
        r@.map_values(|s: String| s@) == spec_boot_fstypes(fstab@),
{
    let text = chars_of(fstab);
    let ls = lines_chars(text.as_slice());
    let ghost lv = views(ls@);
    let mut out: Vec<String> = Vec::new();
    for i in 0..ls.len()
        invariant
            lv == views(ls@),
            lv.len() == ls.len(),
            out@.map_values(|s: String| s@) == boot_fstypes_of(lv.take(i as int)),
    {
        assert(lv.take(i + 1).drop_last() == lv.take(i as int));
        match boot_mount_line(ls[i].as_slice()) {
            Some(t) => {
                assert(t@.subrange(0, t.len() as int) == t@);
                let ghost before = out@;
                out.push(string_of(t.as_slice()));
                assert(out@.map_values(|s: String| s@) == before.map_values(|s: String| s@).push(
                    t@,
                ));
            },
            None => {},
        }
    }
    assert(lv.take(ls.len() as int) == lv);
    out
}

/// Some string of the list is `x`.
fn lists_string(v: &[String], x: &str) -> (r: bool)
    ensures
        r == v@.map_values(|s: String| s@).contains(x@),
{
    let ghost vv = v@.map_values(|s: String| s@);
    for i in 0..v.len()
        invariant
            vv == v@.map_values(|s: String| s@),
            vv.len() == v.len(),
            forall|k: int| 0 <= k < i ==> vv[k] != x@,
    {
        if eq_str(v[i].as_str(), x) {
            assert(vv[i as int] == x@);
            return true;
        }
    }
    false
}

/// Some policy in `ps` is about `module`.
pub fn covers_module(ps: &[ModulePolicy], module: &str) -> (r: bool)
    ensures
        r == policy_modules(policies_view(ps@)).contains(module@),
{
    let ghost mods = policy_modules(policies_view(ps@));
    for i in 0..ps.len()
        invariant
            mods == policy_modules(policies_view(ps@)),
            mods.len() == ps.len(),
            forall|k: int| 0 <= k < i ==> mods[k] != module@,
    {
        if eq_str(ps[i].module.as_str(), module) {
            assert(mods[i as int] == module@);
            return true;
        }
    }
    false
}

/// The policy for a module that a KMP package provides.
fn kmp_module_policy(m: &KmpModule, root_fstype: &str, boot_fstypes: &[String]) -> (r:
    ModulePolicy)
    ensures
        r@ == kmp_policy(m@, root_fstype@, boot_fstypes@.map_values(|s: String| s@)),
{
    let mut name = owned("kmp:");
    name.append(m.module.as_str());
    let mut reason = owned("KMP package is installed: ");
    reason.append(m.package.as_str());
    if eq_str(m.module.as_str(), root_fstype) {
        reason.append("; / is mounted as ");
        reason.append(m.module.as_str());
        ModulePolicy {
            name,
            module: m.module.clone(),
            enabled: true,
            initrd: InitrdPolicy::Required,
            severity: Severity::BootRisk,
            reason,
            important_kernels_only: false,
            next_boot_only: false,
        }
    } else if lists_string(boot_fstypes, m.module.as_str()) {
        reason.append("; a boot-required mount uses ");
        reason.append(m.module.as_str());
        ModulePolicy {
            name,
            module: m.module.clone(),
            enabled: true,
            initrd: InitrdPolicy::Optional,
            severity: Severity::BootRisk,
            reason,
            important_kernels_only: false,
            next_boot_only: false,
        }
    } else {
        ModulePolicy {
            name,
            module: m.module.clone(),
            enabled: true,
            initrd: InitrdPolicy::Optional,
            severity: Severity::Warning,
            reason,
            important_kernels_only: true,
            next_boot_only: false,
        }
    }
}

/// The generic policies for the given KMP modules, next to the existing
/// policies, for a system whose `/` has type `root_fstype` and whose
/// boot-required mounts have the types `boot_fstypes`.
pub fn generic_kmp_policies_for(
    modules: &[KmpModule],
    existing: &[ModulePolicy],
    root_fstype: &str,
    boot_fstypes: &[String],
) -> (r: Vec<ModulePolicy>)
    ensures
        policies_view(r@) == spec_generic_kmp_policies(
            kmp_modules_view(modules@),
            policy_modules(policies_view(existing@)),
            root_fstype@,
            boot_fstypes@.map_values(|s: String| s@),
        ),
{
    let ghost mods = kmp_modules_view(modules@);
    let ghost ex = policy_modules(policies_view(existing@));
    let ghost bv = boot_fstypes@.map_values(|s: String| s@);
    let mut out: Vec<ModulePolicy> = Vec::new();
    for i in 0..modules.len()
        invariant
            mods == kmp_modules_view(modules@),
            ex == policy_modules(policies_view(existing@)),
            bv == boot_fstypes@.map_values(|s: String| s@),
            mods.len() == modules.len(),
            policies_view(out@) == spec_generic_kmp_policies(
                mods.take(i as int),
                ex,
                root_fstype@,
                bv,
            ),
    {
        assert(mods.take(i + 1).drop_last() == mods.take(i as int));
        let m = &modules[i];
        let ghost prev = policies_view(out@);
        if !covers_module(existing, m.module.as_str()) && !covers_module(
            out.as_slice(),
            m.module.as_str(),
        ) {
            out.push(kmp_module_policy(m, root_fstype, boot_fstypes));
            assert(policies_view(out@) == prev.push(kmp_policy(m@, root_fstype@, bv)));
        }
    }
    assert(mods.take(modules.len() as int) == mods);
    out
}

/// The generic policies for the KMP modules that the probe reports.
///
/// The result is the generic list for the probe's answers about the
/// installed KMP modules, the type of `/` and the file system table, next to
/// the existing policies.
pub fn generic_kmp_policies<P: SystemProbe + ?Sized>(
    probe: &P,
    existing_policies: &[ModulePolicy],
) -> (r: Vec<ModulePolicy>)
    ensures
        exists|mods: Seq<KmpModuleView>, fs: Seq<char>, fstab: Seq<char>|
            kmp_modules_answer(probe, mods) && root_fstype_answer(probe, fs) && fstab_answer(
                probe,
                fstab,
            ) && policies_view(r@) == spec_generic_kmp_policies(
                mods,
                policy_modules(policies_view(existing_policies@)),
                fs,
                spec_boot_fstypes(fstab),
            ),
{
    let modules = probe.installed_kmp_modules();
    let root_fstype = probe.root_fstype();
    let fstab = probe.fstab();
    let boot = boot_mount_fstypes(fstab.as_str());
    let r = generic_kmp_policies_for(
        modules.as_slice(),
        existing_policies,
        root_fstype.as_str(),
        boot.as_slice(),
    );
    assert(kmp_modules_answer(probe, kmp_modules_view(modules@)));
    assert(root_fstype_answer(probe, root_fstype@));
    assert(fstab_answer(probe, fstab@));
    r
}

/// The generic KMP policies are about distinct modules that no existing
/// policy covers, each enabled and named `kmp:MODULE`; a module for the file
/// system of `/` is a boot risk that must be in the initrd, a module for the
/// file system of another boot-required mount is a boot risk, both for every
/// kernel; any other module is a warning with an optional initrd for the
/// important kernels only.
pub proof fn lemma_generic_policies_shape(
    mods: Seq<KmpModuleView>,
    existing: Seq<Seq<char>>,
    root_fstype: Seq<char>,
    boot_fstypes: Seq<Seq<char>>,
)
    ensures
        forall|i: int|
            0 <= i < spec_generic_kmp_policies(mods, existing, root_fstype, boot_fstypes).len()
                ==> {
                let p = #[trigger] spec_generic_kmp_policies(
                    mods,
                    existing,
                    root_fstype,
                    boot_fstypes,
                )[i];
                let boot = p.module == root_fstype || boot_fstypes.contains(p.module);
                &&& !existing.contains(p.module)
                &&& p.enabled
                &&& p.name == "kmp:"@ + p.module
                &&& p.severity == (if boot {
                    Severity::BootRisk
                } else {
                    Severity::Warning
                })
                &&& p.initrd == (if p.module == root_fstype {
                    InitrdPolicy::Required
                } else {
                    InitrdPolicy::Optional
                })
                &&& p.important_kernels_only == !boot
            },
        forall|i: int, j: int|
            0 <= i < j < spec_generic_kmp_policies(mods, existing, root_fstype, boot_fstypes).len()
                ==> (#[trigger] spec_generic_kmp_policies(
                mods,
                existing,
                root_fstype,
                boot_fstypes,
            )[i]).module != (#[trigger] spec_generic_kmp_policies(
                mods,
                existing,
                root_fstype,
                boot_fstypes,
            )[j]).module,
    decreases mods.len(),
{
    if mods.len() > 0 {
        lemma_generic_policies_shape(mods.drop_last(), existing, root_fstype, boot_fstypes);
        let prev = spec_generic_kmp_policies(mods.drop_last(), existing, root_fstype, boot_fstypes);
        let g = spec_generic_kmp_policies(mods, existing, root_fstype, boot_fstypes);
        let m = mods.last();
        if !(existing.contains(m.module) || policy_modules(prev).contains(m.module)) {
            assert forall|i: int, j: int| 0 <= i < j < g.len() implies (#[trigger] g[i]).module != (
            #[trigger] g[j]).module by {
                if j == g.len() - 1 {
                    assert(g[i] == prev[i]);
                    assert(policy_modules(prev)[i] == prev[i].module);
                } else {
                    assert(g[i] == prev[i] && g[j] == prev[j]);
                }
            }
            assert forall|i: int| 0 <= i < g.len() implies {
                let p = #[trigger] g[i];
                let boot = p.module == root_fstype || boot_fstypes.contains(p.module);
                &&& !existing.contains(p.module)
                &&& p.enabled
                &&& p.name == "kmp:"@ + p.module
                &&& p.severity == (if boot {
                    Severity::BootRisk
                } else {
                    Severity::Warning
                })
                &&& p.initrd == (if p.module == root_fstype {
                    InitrdPolicy::Required
                } else {
                    InitrdPolicy::Optional
                })
                &&& p.important_kernels_only == !boot
            } by {
                if i < g.len() - 1 {
                    assert(g[i] == prev[i]);
                }
            }
        }
    }
}


/// The policies of `ps` for none of the modules `mods`, in order.
pub open spec fn without_modules(ps: Seq<ModulePolicyView>, mods: Seq<Seq<char>>) -> Seq<
    ModulePolicyView,
>
    decreases ps.len(),
{
    if ps.len() == 0 {
        Seq::empty()
    } else {
        let prev = without_modules(ps.drop_last(), mods);
        if mods.contains(ps.last().module) {
            prev
        } else {
            prev.push(ps.last())
        }
    }
}

/// The built-in policies that the configured ones leave in place: a
/// configured policy for a module, enabled or not, takes the place of the
/// built-in policy for it, so `enabled = false` turns a built-in check off.
pub fn drop_configured(builtin: Vec<ModulePolicy>, configured: &[ModulePolicy]) -> (r: Vec<
    ModulePolicy,
>)
    ensures
        policies_view(r@) == without_modules(
            policies_view(builtin@),
            policy_modules(policies_view(configured@)),
        ),
{
    let ghost bv = policies_view(builtin@);
    let ghost mods = policy_modules(policies_view(configured@));
    let mut out: Vec<ModulePolicy> = Vec::new();
    for i in 0..builtin.len()
        invariant
            bv == policies_view(builtin@),
            bv.len() == builtin.len(),
            mods == policy_modules(policies_view(configured@)),
            policies_view(out@) == without_modules(bv.take(i as int), mods),
    {
        assert(bv.take(i + 1).drop_last() == bv.take(i as int));
        if !covers_module(configured, builtin[i].module.as_str()) {
            let ghost prev = policies_view(out@);
            out.push(builtin[i].duplicate());
            assert(policies_view(out@) == prev.push(bv[i as int]));
        }
    }
    assert(bv.take(builtin.len() as int) == bv);
    out
}


/// No policy left by `without_modules` is for one of the modules removed.
pub proof fn lemma_without_modules(ps: Seq<ModulePolicyView>, mods: Seq<Seq<char>>)
    ensures
        forall|i: int|
            0 <= i < without_modules(ps, mods).len() ==> !mods.contains(
                (#[trigger] without_modules(ps, mods)[i]).module,
            ),
    decreases ps.len(),
{
    if ps.len() > 0 {
        lemma_without_modules(ps.drop_last(), mods);
    }
}


/// `without_modules` keeps exactly the policies for modules outside `mods`:
/// a policy is in the result when it is in `ps` and its module is not one of
/// `mods`, and only then.
pub proof fn lemma_without_modules_members(ps: Seq<ModulePolicyView>, mods: Seq<Seq<char>>)
    ensures
        forall|p: ModulePolicyView|
            #[trigger] without_modules(ps, mods).contains(p) <==> (ps.contains(p) && !mods.contains(
                p.module,
            )),
    decreases ps.len(),
{
    if ps.len() > 0 {
        let d = ps.drop_last();
        lemma_without_modules_members(d, mods);
        let prev = without_modules(d, mods);
        let w = without_modules(ps, mods);
        assert forall|p: ModulePolicyView| #[trigger] w.contains(p) <==> (ps.contains(p)
            && !mods.contains(p.module)) by {
            if w.contains(p) {
                let i = choose|i: int| 0 <= i < w.len() && w[i] == p;
                if i < prev.len() {
                    assert(w[i] == prev[i]);
                    assert(prev.contains(p));
                    let j = choose|j: int| 0 <= j < d.len() && d[j] == p;
                    assert(ps[j] == p);
                } else {
                    assert(p == ps.last());
                    assert(ps[ps.len() - 1] == p);
                }
            }
            if ps.contains(p) && !mods.contains(p.module) {
                let j = choose|j: int| 0 <= j < ps.len() && ps[j] == p;
                if j < ps.len() - 1 {
                    assert(d[j] == p);
                    assert(d.contains(p));
                    assert(prev.contains(p));
                    let i = choose|i: int| 0 <= i < prev.len() && prev[i] == p;
                    assert(w[i] == prev[i]);
                    assert(w[i] == p);
                } else {
                    assert(w[w.len() - 1] == p);
                }
            }
        }
    }
}

/// Every KMP module that no existing policy covers gets a generic policy,
/// and every generic policy is for one of the KMP modules.
pub proof fn lemma_generic_policies_cover(
    mods: Seq<KmpModuleView>,
    existing: Seq<Seq<char>>,
    root_fstype: Seq<char>,
    boot_fstypes: Seq<Seq<char>>,
)
    ensures
        forall|k: int|
            0 <= k < mods.len() ==> existing.contains((#[trigger] mods[k]).module) || policy_modules(
                spec_generic_kmp_policies(mods, existing, root_fstype, boot_fstypes),
            ).contains(mods[k].module),
        forall|i: int|
            0 <= i < spec_generic_kmp_policies(mods, existing, root_fstype, boot_fstypes).len()
                ==> exists|k: int|
                0 <= k < mods.len() && mods[k].module == (#[trigger] spec_generic_kmp_policies(
                    mods,
                    existing,
                    root_fstype,
                    boot_fstypes,
                )[i]).module,
    decreases mods.len(),
{
    if mods.len() > 0 {
        let d = mods.drop_last();
        lemma_generic_policies_cover(d, existing, root_fstype, boot_fstypes);
        let prev = spec_generic_kmp_policies(d, existing, root_fstype, boot_fstypes);
        let g = spec_generic_kmp_policies(mods, existing, root_fstype, boot_fstypes);
        let m = mods.last();
        let pushed = !(existing.contains(m.module) || policy_modules(prev).contains(m.module));
        assert(forall|i: int| 0 <= i < prev.len() ==> g[i] == prev[i]);
        assert forall|k: int| 0 <= k < mods.len() implies existing.contains(
            (#[trigger] mods[k]).module,
        ) || policy_modules(g).contains(mods[k].module) by {
            if k < mods.len() - 1 {
                assert(d[k] == mods[k]);
                if !existing.contains(mods[k].module) {
                    let i = choose|i: int|
                        0 <= i < policy_modules(prev).len() && policy_modules(prev)[i]
                            == mods[k].module;
                    assert(policy_modules(g)[i] == mods[k].module);
                }
            } else {
                assert(mods[k] == m);
                if pushed {
                    assert(policy_modules(g)[g.len() - 1] == m.module);
                } else if policy_modules(prev).contains(m.module) {
                    let i = choose|i: int|
                        0 <= i < policy_modules(prev).len() && policy_modules(prev)[i] == m.module;
                    assert(policy_modules(g)[i] == m.module);
                }
            }
        }
        assert forall|i: int| 0 <= i < g.len() implies exists|k: int|
            0 <= k < mods.len() && mods[k].module == (#[trigger] g[i]).module by {
            if i < prev.len() {
                let k = choose|k: int| 0 <= k < d.len() && d[k].module == prev[i].module;
                assert(mods[k] == d[k]);
            } else {
                assert(g[i].module == m.module);
                assert(mods[mods.len() - 1] == m);
            }
        }
    }
}

} // verus!
