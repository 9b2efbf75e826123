# kmp_boot_check

Checks whether the installed SUSE/openSUSE kernels carry the kernel modules
(KMPs) that the next boot needs. The checking logic is written in Verus and
proved against its contracts.

- `src/` is the verified library: the module policies (built-in, generic KMP
  ones with the promotion of file system KMPs used by `/` or by a
  boot-required `/etc/fstab` mount, and the
  `/etc/kmp-boot-check/modules.d/*.conf` files), the per-kernel checks
  (the running, latest, requested and next-boot kernels, the last found
  from the bootloader's default entry), the severities and exit codes,
  the human and JSON reports (with a JSON reader that reads the report
  back), the reading of `rpm`/`lsinitrd` output, the command line, and the
  libzypp plugin's frame handling.
- `SystemProbe` is the interface to the machine. What it answers is not
  proved; the contracts say which questions the library asks it, with which
  arguments, and what the library does with every possible answer.
- `app/` runs the commands (`rpm`, `uname`, `findmnt`, `modinfo`,
  `lsinitrd`, `sdbootutil`), reads `/etc/fstab` and the configuration
  directories, and drives the checker and the plugin (when invoked as
  `zypp-plugin-*` or from a `zypp/plugins` directory).
- `tests/` exercises the library on concrete systems.
