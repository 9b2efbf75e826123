use crate::model::{kernels_view, kmp_modules_view, Kernel, KernelView, KmpModule, KmpModuleView};
use vstd::prelude::*;

verus! {

/// What the checker asks of the system it runs on.
///
/// The answers come from the machine (the package database, the running
/// kernel, the module tree, the initrd), so nothing is promised of them: the
/// checks hold for every answer a probe may give.
pub trait SystemProbe {
    /// The installed bootable kernels.
    fn installed_kernels(&self) -> Vec<Kernel>;

    /// The kernel modules that installed KMP packages provide.
    fn installed_kmp_modules(&self) -> Vec<KmpModule>;

    /// The release of the running kernel (`uname -r`).
    fn running_kernel(&self) -> String;

    /// The file system type mounted at `/`.
    fn root_fstype(&self) -> String;

    /// Whether a package matching one of the glob patterns is installed.
    fn has_installed_package(&self, patterns: &[String]) -> bool;

    /// Whether the module is available for the kernel.
    fn has_module(&self, kernel: &str, module: &str) -> bool;

    /// Whether the kernel's initrd holds the module, `None` when the initrd
    /// could not be inspected.
    fn initrd_has_module(&self, kernel: &str, module: &str) -> Option<bool>;

    /// The text of the file system table (`/etc/fstab`); empty when there is
    /// none.
    fn fstab(&self) -> String {
        String::new()
    }

    /// The bootloader's default entry for the next boot; `None` when no
    /// bootloader tool can tell.
    fn default_boot_entry(&self) -> Option<String> {
        None
    }
}


/// `found` is an answer the probe can give to whether `module` is available
/// for the kernel `kernel`.
pub open spec fn module_answer<P: SystemProbe + ?Sized>(
    probe: &P,
    kernel: Seq<char>,
    module: Seq<char>,
    found: bool,
) -> bool {
    exists|k: &str, m: &str|
        k@ == kernel && m@ == module && #[trigger] call_ensures(P::has_module, (probe, k, m), found)
}

/// `found` is an answer the probe can give to whether the initrd of the
/// kernel `kernel` holds `module`.
pub open spec fn initrd_answer<P: SystemProbe + ?Sized>(
    probe: &P,
    kernel: Seq<char>,
    module: Seq<char>,
    found: Option<bool>,
) -> bool {
    exists|k: &str, m: &str|
        k@ == kernel && m@ == module && #[trigger] call_ensures(
            P::initrd_has_module,
            (probe, k, m),
            found,
        )
}


/// `ks` are the kernels of an answer the probe can give about the installed
/// kernels.
pub open spec fn kernels_answer<P: SystemProbe + ?Sized>(probe: &P, ks: Seq<KernelView>) -> bool {
    exists|v: Vec<Kernel>|
        #[trigger] call_ensures(P::installed_kernels, (probe,), v) && kernels_view(v@) == ks
}

/// `ms` are the modules of an answer the probe can give about the installed
/// KMP modules.
pub open spec fn kmp_modules_answer<P: SystemProbe + ?Sized>(
    probe: &P,
    ms: Seq<KmpModuleView>,
) -> bool {
    exists|v: Vec<KmpModule>|
        #[trigger] call_ensures(P::installed_kmp_modules, (probe,), v) && kmp_modules_view(v@)
            == ms
}

/// `s` is an answer the probe can give about the running release.
pub open spec fn running_answer<P: SystemProbe + ?Sized>(probe: &P, s: Seq<char>) -> bool {
    exists|v: String| #[trigger] call_ensures(P::running_kernel, (probe,), v) && v@ == s
}

/// `s` is an answer the probe can give about the file system type of `/`.
pub open spec fn root_fstype_answer<P: SystemProbe + ?Sized>(probe: &P, s: Seq<char>) -> bool {
    exists|v: String| #[trigger] call_ensures(P::root_fstype, (probe,), v) && v@ == s
}

/// `s` is an answer the probe can give about the file system table.
pub open spec fn fstab_answer<P: SystemProbe + ?Sized>(probe: &P, s: Seq<char>) -> bool {
    exists|v: String| #[trigger] call_ensures(P::fstab, (probe,), v) && v@ == s
}

/// `e` is an answer the probe can give about the bootloader's default entry.
pub open spec fn boot_entry_answer<P: SystemProbe + ?Sized>(probe: &P, e: Option<Seq<char>>) -> bool {
    exists|v: Option<String>|
        #[trigger] call_ensures(P::default_boot_entry, (probe,), v) && e == (match v {
            Some(s) => Some(s@),
            None => None,
        })
}

/// `found` is an answer the probe can give to whether a package matching one
/// of exactly the `patterns` is installed.
pub open spec fn package_answer<P: SystemProbe + ?Sized>(
    probe: &P,
    patterns: Seq<Seq<char>>,
    found: bool,
) -> bool {
    exists|ps: &[String]|
        #[trigger] call_ensures(P::has_installed_package, (probe, ps), found) && ps@.map_values(
            |x: String| x@,
        ) == patterns
}

} // verus!
