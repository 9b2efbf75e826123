use crate::model::{kernels_view, kmp_modules_view, Kernel, KernelView, KmpModule, KmpModuleView};
use crate::text::{
    chars_of, contains, contains_chars, eq_chars, eq_str, lines, lines_chars, replace_char, replace_char_chars, split_once,
    split_once_chars, string_of, strip_prefix, strip_prefix_chars, trim, trim_chars, views,
};
use crate::check::{
    kernel_before, lemma_seq_lt_irreflexive, lemma_seq_lt_transitive, lt_str, seq_lt,
};
use vstd::prelude::*;

verus! {

/// The module named by an RPM `kmod(NAME.ko)` provide, trimmed; `None` when
/// the provide has another form or names no module.
pub open spec fn spec_kmod_provide(value: Seq<char>) -> Option<Seq<char>> {
    match strip_prefix(value, "kmod("@) {
        Some(rest) => match split_once(rest, ".ko)"@) {
            Some((name, _)) => if trim(name).len() > 0 {
                Some(trim(name))
            } else {
                None
            },
            None => None,
        },
        None => None,
    }
}

/// Reads the module out of an RPM `kmod(NAME.ko)` provide.
pub fn parse_kmod_provide(value: &str) -> (r: Option<String>)
    ensures
        r matches Some(m) ==> spec_kmod_provide(value@) == Some(m@),
        r is None ==> spec_kmod_provide(value@) is None,
{
    let v = chars_of(value);
    let prefix = chars_of("kmod(");
    let suffix = chars_of(".ko)");
    let rest = match strip_prefix_chars(v.as_slice(), prefix.as_slice()) {
        Some(rest) => rest,
        None => return None,
    };
    let name = match split_once_chars(rest.as_slice(), suffix.as_slice()) {
        Some((name, _)) => name,
        None => return None,
    };
    let module = trim_chars(name.as_slice());
    if module.len() == 0 {
        return None;
    }
    Some(string_of(module.as_slice()))
}

/// The texts that show a module in an initrd listing: its file name, with
/// `-` read as `_`, after `/` or a space, compressed or not.
pub open spec fn spec_module_needles(module: Seq<char>) -> Seq<Seq<char>> {
    let base = replace_char(module, '-', '_');
    seq![
        "/"@ + base + ".ko"@,
        "/"@ + base + ".ko."@,
        " "@ + base + ".ko"@,
        " "@ + base + ".ko."@,
    ]
}

/// The texts that show a module in an initrd listing.
pub fn module_needles(module: &str) -> (r: Vec<String>)
    ensures
        r@.map_values(|s: String| s@) == spec_module_needles(module@),
{
    let m = chars_of(module);
    let base_chars = replace_char_chars(m.as_slice(), '-', '_');
    let base = string_of(base_chars.as_slice());
    let mut a = String::from_str("/");
    a.append(base.as_str());
    a.append(".ko");
    let mut b = String::from_str("/");
    b.append(base.as_str());
    b.append(".ko.");
    let mut c = String::from_str(" ");
    c.append(base.as_str());
    c.append(".ko");
    let mut d = String::from_str(" ");
    d.append(base.as_str());
    d.append(".ko.");
    let r = vec![a, b, c, d];
    assert(r@.map_values(|s: String| s@) == spec_module_needles(module@));
    r
}


/// Some line of an initrd listing shows the module.
pub open spec fn spec_initrd_lists_module(listing: Seq<char>, module: Seq<char>) -> bool {
    exists|i: int, j: int|
        0 <= i < lines(listing).len() && 0 <= j < 4 && contains(
            #[trigger] lines(listing)[i],
            #[trigger] spec_module_needles(module)[j],
        )
}

/// Whether an initrd listing (`lsinitrd` output) shows the module.
pub fn initrd_lists_module(listing: &str, module: &str) -> (r: bool)
    ensures
        r == spec_initrd_lists_module(listing@, module@),
{
    let needles = module_needles(module);
    let ghost nv = needles@.map_values(|s: String| s@);
    let mut needle_chars: Vec<Vec<char>> = Vec::new();
    for j in 0..needles.len()
        invariant
            nv == needles@.map_values(|s: String| s@),
            nv.len() == needles.len(),
            needle_chars@.len() == j,
            forall|k: int| 0 <= k < j ==> (#[trigger] needle_chars@[k])@ == nv[k],
    {
        needle_chars.push(chars_of(needles[j].as_str()));
    }
    let text = chars_of(listing);
    let ls = lines_chars(text.as_slice());
    let ghost lv = views(ls@);
    for i in 0..ls.len()
        invariant
            lv == views(ls@),
            lv == lines(listing@),
            nv == spec_module_needles(module@),
            needle_chars@.len() == 4,
            forall|k: int| 0 <= k < 4 ==> (#[trigger] needle_chars@[k])@ == nv[k],
            forall|a: int, b: int|
                0 <= a < i && 0 <= b < 4 ==> !contains(#[trigger] lv[a], #[trigger] nv[b]),
    {
        for j in 0..4
            invariant
                lv == views(ls@),
                lv == lines(listing@),
                i < ls.len(),
                nv == spec_module_needles(module@),
                needle_chars@.len() == 4,
                forall|k: int| 0 <= k < 4 ==> (#[trigger] needle_chars@[k])@ == nv[k],
                forall|a: int, b: int|
                    0 <= a < i && 0 <= b < 4 ==> !contains(#[trigger] lv[a], #[trigger] nv[b]),
                forall|b: int| 0 <= b < j ==> !contains(lv[i as int], #[trigger] nv[b]),
        {
            if contains_chars(ls[i].as_slice(), needle_chars[j].as_slice()) {
                assert(contains(lv[i as int], nv[j as int]));
                assert(contains(lines(listing@)[i as int], spec_module_needles(module@)[j as int]));
                return true;
            }
        }
    }
    false
}

/// The value of a string of decimal digits.
pub open spec fn digits_value(d: Seq<char>) -> int
    decreases d.len(),
{
    if d.len() == 0 {
        0
    } else {
        digits_value(d.drop_last()) * 10 + (d.last() as int - '0' as int)
    }
}

/// Every character is a decimal digit.
pub open spec fn all_digits(d: Seq<char>) -> bool {
    forall|i: int| 0 <= i < d.len() ==> '0' <= #[trigger] d[i] && d[i] <= '9'
}

/// `u64::from_str`: an optional `+`, then one or more decimal digits whose
/// value fits in a `u64`.
pub open spec fn spec_parse_u64(s: Seq<char>) -> Option<u64> {
    let d = if s.len() > 0 && s[0] == '+' {
        s.drop_first()
    } else {
        s
    };
    if d.len() > 0 && all_digits(d) && digits_value(d) <= u64::MAX {
        Some(digits_value(d) as u64)
    } else {
        None
    }
}

proof fn lemma_digits_value_grows(d: Seq<char>, i: int)
    requires
        all_digits(d),
        0 <= i <= d.len(),
    ensures
        digits_value(d.take(i)) <= digits_value(d),
        0 <= digits_value(d.take(i)),
    decreases d.len() - i,
{
    if i < d.len() {
        lemma_digits_value_grows(d, i + 1);
        assert(d.take(i + 1).drop_last() == d.take(i));
        assert('0' <= d[i] <= '9');
    } else {
        assert(d.take(i) == d);
        lemma_digits_value_nonneg(d);
    }
}

proof fn lemma_digits_value_nonneg(d: Seq<char>)
    requires
        all_digits(d),
    ensures
        0 <= digits_value(d),
    decreases d.len(),
{
    if d.len() > 0 {
        assert(all_digits(d.drop_last())) by {
            assert forall|i: int| 0 <= i < d.drop_last().len() implies '0' <= #[trigger] d.drop_last()[i]
                && d.drop_last()[i] <= '9' by {
                assert(d.drop_last()[i] == d[i]);
            }
        }
        lemma_digits_value_nonneg(d.drop_last());
        assert('0' <= d[d.len() - 1] <= '9');
    }
}

/// Reads a decimal `u64`, as `str::parse::<u64>` does.
pub fn parse_u64(s: &[char]) -> (r: Option<u64>)
    ensures
        r == spec_parse_u64(s@),
{
    let start: usize = if s.len() > 0 && s[0] == '+' {
        1
    } else {
        0
    };
    let ghost d = if s@.len() > 0 && s@[0] == '+' {
        s@.drop_first()
    } else {
        s@
    };
    assert(d == s@.skip(start as int));
    if start >= s.len() {
        return None;
    }
    let mut v: u64 = 0;
    let mut i: usize = start;
    assert(d.take(0) == Seq::<char>::empty());
    while i < s.len()
        invariant
            start <= i <= s.len(),
            start < s.len(),
            d == s@.skip(start as int),
            d == (if s@.len() > 0 && s@[0] == '+' {
                s@.drop_first()
            } else {
                s@
            }),
            all_digits(d.take(i - start)),
            v as int == digits_value(d.take(i - start)),
        decreases s.len() - i,
    {
        let c = s[i];
        assert(d[i - start] == c);
        assert(d.take(i - start + 1).drop_last() == d.take(i - start));
        if c < '0' || c > '9' {
            assert(!all_digits(d)) by {
                assert(!('0' <= d[i - start] && d[i - start] <= '9'));
            }
            assert(spec_parse_u64(s@) is None);
            return None;
        }
        let digit: u64 = (c as u32 - '0' as u32) as u64;
        assert(all_digits(d.take(i - start + 1))) by {
            assert forall|k: int| 0 <= k < d.take(i - start + 1).len() implies '0'
                <= #[trigger] d.take(i - start + 1)[k] && d.take(i - start + 1)[k] <= '9' by {
                if k < i - start {
                    assert(d.take(i - start + 1)[k] == d.take(i - start)[k]);
                }
            }
        }
        if v > (u64::MAX - digit) / 10 {
            proof {
                let dv = digits_value(d.take(i - start + 1));
                assert(dv == v * 10 + digit);
                assert(v * 10 + digit > u64::MAX) by (nonlinear_arith)
                    requires
                        v > (u64::MAX - digit) / 10,
                        digit <= 9,
                ;
                if all_digits(d) {
                    lemma_digits_value_grows(d, i - start + 1);
                }
                assert(spec_parse_u64(s@) is None);
            }
            return None;
        }
        v = v * 10 + digit;
        i = i + 1;
    }
    assert(d.take(i - start) == d);
    Some(v)
}


/// The package and install time on one line of the kernel package list
/// (`NAME-VERSION-RELEASE.ARCH<TAB>INSTALLTIME`); an unreadable time counts
/// as 0, a line without a tab gives nothing.
pub open spec fn spec_kernel_entry(line: Seq<char>) -> Option<(Seq<char>, u64)> {
    match split_once(line, "\t"@) {
        Some((package, time)) => Some(
            (
                package,
                match spec_parse_u64(trim(time)) {
                    Some(v) => v,
                    None => 0,
                },
            ),
        ),
        None => None,
    }
}

/// The entries of the kernel package list, skipping blank lines.
pub open spec fn spec_kernel_entries(ls: Seq<Seq<char>>) -> Seq<(Seq<char>, u64)>
    decreases ls.len(),
{
    if ls.len() == 0 {
        Seq::empty()
    } else {
        let prev = spec_kernel_entries(ls.drop_last());
        if trim(ls.last()).len() == 0 {
            prev
        } else {
            match spec_kernel_entry(ls.last()) {
                Some(e) => prev.push(e),
                None => prev,
            }
        }
    }
}

/// The views of a list of package entries.
pub open spec fn entries_view(v: Seq<(String, u64)>) -> Seq<(Seq<char>, u64)> {
    v.map_values(|e: (String, u64)| (e.0@, e.1))
}

/// Reads the kernel package list that `rpm -qa kernel-* --qf
/// '%{NAME}-%{VERSION}-%{RELEASE}.%{ARCH}\t%{INSTALLTIME}\n'` prints.
pub fn parse_kernel_packages(output: &str) -> (r: Vec<(String, u64)>)
    ensures
        entries_view(r@) == spec_kernel_entries(lines(output@)),
{
    let text = chars_of(output);
    let ls = lines_chars(text.as_slice());
    let ghost lv = views(ls@);
    let tab = chars_of("\t");
    let mut out: Vec<(String, u64)> = Vec::new();
    for i in 0..ls.len()
        invariant
            lv == views(ls@),
            lv.len() == ls.len(),
            tab@ == "\t"@,
            entries_view(out@) == spec_kernel_entries(lv.take(i as int)),
    {
        assert(lv.take(i + 1).drop_last() == lv.take(i as int));
        let line = &ls[i];
        let t = trim_chars(line.as_slice());
        if t.len() > 0 {
            match split_once_chars(line.as_slice(), tab.as_slice()) {
                Some((package, time)) => {
                    let time_chars = trim_chars(time.as_slice());
                    let value = match parse_u64(time_chars.as_slice()) {
                        Some(v) => v,
                        None => 0,
                    };
                    let ghost before = out@;
                    out.push((string_of(package.as_slice()), value));
                    assert(entries_view(out@) == entries_view(before).push((package@, value)));
                },
                None => {},
            }
        }
    }
    assert(lv.take(ls.len() as int) == lv);
    out
}

/// The kernel release on a provide line (`kernel-uname-r = RELEASE`).
pub open spec fn provide_uname(line: Seq<char>) -> Option<Seq<char>> {
    strip_prefix(trim(line), "kernel-uname-r = "@)
}

/// The releases of a list of kernels.
pub open spec fn unames(ks: Seq<KernelView>) -> Seq<Seq<char>> {
    ks.map_values(|k: KernelView| k.uname)
}

/// The kernels after reading the provide lines of one kernel package: a
/// kernel for each release that is neither `vmlinux` nor already listed.
pub open spec fn spec_add_kernels(
    ks: Seq<KernelView>,
    package: Seq<char>,
    install_time: u64,
    ls: Seq<Seq<char>>,
) -> Seq<KernelView>
    decreases ls.len(),
{
    if ls.len() == 0 {
        ks
    } else {
        let prev = spec_add_kernels(ks, package, install_time, ls.drop_last());
        match provide_uname(ls.last()) {
            Some(u) => if u == "vmlinux"@ || unames(prev).contains(u) {
                prev
            } else {
                prev.push(
                    KernelView {
                        uname: u,
                        package,
                        install_time,
                        running: false,
                        latest: false,
                    },
                )
            },
            None => prev,
        }
    }
}

/// Some kernel in the list has the release `u`.
fn has_uname(ks: &Vec<Kernel>, u: &[char]) -> (r: bool)
    ensures
        r == unames(kernels_view(ks@)).contains(u@),
{
    let ghost un = unames(kernels_view(ks@));
    for i in 0..ks.len()
        invariant
            un == unames(kernels_view(ks@)),
            un.len() == ks.len(),
            forall|k: int| 0 <= k < i ==> un[k] != u@,
    {
        let c = chars_of(ks[i].uname.as_str());
        if eq_chars(c.as_slice(), u) {
            assert(un[i as int] == u@);
            return true;
        }
    }
    false
}

/// Adds the kernels that one kernel package provides, given the output of
/// `rpm -q --provides PACKAGE`.
pub fn add_kernel_provides(
    kernels: &mut Vec<Kernel>,
    package: &str,
    install_time: u64,
    provides: &str,
)
    ensures
        kernels_view(final(kernels)@) == spec_add_kernels(
            kernels_view(old(kernels)@),
            package@,
            install_time,
            lines(provides@),
        ),
{
    let ghost start = kernels_view(kernels@);
    let text = chars_of(provides);
    let ls = lines_chars(text.as_slice());
    let ghost lv = views(ls@);
    let prefix = chars_of("kernel-uname-r = ");
    let vmlinux = chars_of("vmlinux");
    assert(lv.take(0) == Seq::<Seq<char>>::empty());
    for i in 0..ls.len()
        invariant
            lv == views(ls@),
            lv.len() == ls.len(),
            prefix@ == "kernel-uname-r = "@,
            vmlinux@ == "vmlinux"@,
            kernels_view(kernels@) == spec_add_kernels(start, package@, install_time, lv.take(i as int)),
    {
        assert(lv.take(i + 1).drop_last() == lv.take(i as int));
        let line = trim_chars(ls[i].as_slice());
        match strip_prefix_chars(line.as_slice(), prefix.as_slice()) {
            Some(u) => {
                if !eq_chars(u.as_slice(), vmlinux.as_slice()) && !has_uname(kernels, u.as_slice()) {
                    let ghost before = kernels_view(kernels@);
                    kernels.push(
                        Kernel {
                            uname: string_of(u.as_slice()),
                            package: String::from_str(package),
                            install_time,
                            running: false,
                            latest: false,
                        },
                    );
                    assert(kernels_view(kernels@) == before.push(
                        KernelView {
                            uname: u@,
                            package: package@,
                            install_time,
                            running: false,
                            latest: false,
                        },
                    ));
                }
            },
            None => {},
        }
    }
    assert(lv.take(ls.len() as int) == lv);
}

/// The trimmed, non-blank lines of a package list.
pub open spec fn spec_package_names(ls: Seq<Seq<char>>) -> Seq<Seq<char>>
    decreases ls.len(),
{
    if ls.len() == 0 {
        Seq::empty()
    } else {
        let prev = spec_package_names(ls.drop_last());
        if trim(ls.last()).len() > 0 {
            prev.push(trim(ls.last()))
        } else {
            prev
        }
    }
}

/// Reads the package list that `rpm -qa` prints, one package per line.
pub fn parse_package_names(output: &str) -> (r: Vec<String>)
    ensures
        r@.map_values(|s: String| s@) == spec_package_names(lines(output@)),
{
    let text = chars_of(output);
    let ls = lines_chars(text.as_slice());
    let ghost lv = views(ls@);
    let mut out: Vec<String> = Vec::new();
    for i in 0..ls.len()
        invariant
            lv == views(ls@),
            lv.len() == ls.len(),
            out@.map_values(|s: String| s@) == spec_package_names(lv.take(i as int)),
    {
        assert(lv.take(i + 1).drop_last() == lv.take(i as int));
        let t = trim_chars(ls[i].as_slice());
        if t.len() > 0 {
            let ghost before = out@;
            out.push(string_of(t.as_slice()));
            assert(out@.map_values(|s: String| s@) == before.map_values(|s: String| s@).push(t@));
        }
    }
    assert(lv.take(ls.len() as int) == lv);
    out
}

/// The KMP modules after reading the provide lines of one KMP package: one
/// entry for each `kmod(NAME.ko)` provide not already listed for the package.
pub open spec fn spec_add_kmp_modules(
    ms: Seq<KmpModuleView>,
    package: Seq<char>,
    ls: Seq<Seq<char>>,
) -> Seq<KmpModuleView>
    decreases ls.len(),
{
    if ls.len() == 0 {
        ms
    } else {
        let prev = spec_add_kmp_modules(ms, package, ls.drop_last());
        match spec_kmod_provide(trim(ls.last())) {
            Some(m) => if prev.contains(KmpModuleView { package, module: m }) {
                prev
            } else {
                prev.push(KmpModuleView { package, module: m })
            },
            None => prev,
        }
    }
}

/// The list holds the module entry.
fn has_kmp_module(ms: &Vec<KmpModule>, package: &str, module: &str) -> (r: bool)
    ensures
        r == kmp_modules_view(ms@).contains(KmpModuleView { package: package@, module: module@ }),
{
    let ghost mv = kmp_modules_view(ms@);
    let ghost e = KmpModuleView { package: package@, module: module@ };
    for i in 0..ms.len()
        invariant
            mv == kmp_modules_view(ms@),
            mv.len() == ms.len(),
            e == (KmpModuleView { package: package@, module: module@ }),
            forall|k: int| 0 <= k < i ==> mv[k] != e,
    {
        if eq_str(ms[i].package.as_str(), package) && eq_str(ms[i].module.as_str(), module) {
            assert(mv[i as int] == e);
            return true;
        }
    }
    false
}

/// Adds the modules that one KMP package provides, given the output of
/// `rpm -q --provides PACKAGE`.
pub fn add_kmp_provides(modules: &mut Vec<KmpModule>, package: &str, provides: &str)
    ensures
        kmp_modules_view(final(modules)@) == spec_add_kmp_modules(
            kmp_modules_view(old(modules)@),
            package@,
            lines(provides@),
        ),
{
    let ghost start = kmp_modules_view(modules@);
    let text = chars_of(provides);
    let ls = lines_chars(text.as_slice());
    let ghost lv = views(ls@);
    assert(lv.take(0) == Seq::<Seq<char>>::empty());
    for i in 0..ls.len()
        invariant
            lv == views(ls@),
            lv.len() == ls.len(),
            kmp_modules_view(modules@) == spec_add_kmp_modules(start, package@, lv.take(i as int)),
    {
        assert(lv.take(i + 1).drop_last() == lv.take(i as int));
        let line = trim_chars(ls[i].as_slice());
        let line_string = string_of(line.as_slice());
        match parse_kmod_provide(line_string.as_str()) {
            Some(m) => {
                if !has_kmp_module(modules, package, m.as_str()) {
                    let ghost before = kmp_modules_view(modules@);
                    let ghost mview = m@;
                    modules.push(KmpModule { package: String::from_str(package), module: m });
                    assert(kmp_modules_view(modules@) == before.push(
                        KmpModuleView { package: package@, module: mview },
                    ));
                }
            },
            None => {},
        }
    }
    assert(lv.take(ls.len() as int) == lv);
}


/// The kernel order is transitive.
pub proof fn lemma_kernel_before_transitive(a: KernelView, b: KernelView, c: KernelView)
    requires
        kernel_before(a, b),
        kernel_before(b, c),
    ensures
        kernel_before(a, c),
{
    if a.install_time == b.install_time && b.install_time == c.install_time {
        lemma_seq_lt_transitive(a.uname, b.uname, c.uname);
    }
}

/// No kernel comes after a later one: sorted by install time, then release.
pub open spec fn kernels_sorted(s: Seq<KernelView>) -> bool {
    forall|i: int, j: int| 0 <= i < j < s.len() ==> !kernel_before(#[trigger] s[j], #[trigger] s[i])
}

/// Two kernels have the same sort key: install time and release.
pub open spec fn same_key(a: KernelView, b: KernelView) -> bool {
    a.install_time == b.install_time && a.uname == b.uname
}

/// The kernels of `s` with the sort key of `x`, in order.
pub open spec fn with_key(s: Seq<KernelView>, x: KernelView) -> Seq<KernelView>
    decreases s.len(),
{
    if s.len() == 0 {
        Seq::empty()
    } else if same_key(s.last(), x) {
        with_key(s.drop_last(), x).push(s.last())
    } else {
        with_key(s.drop_last(), x)
    }
}

proof fn lemma_with_key_concat(a: Seq<KernelView>, b: Seq<KernelView>, x: KernelView)
    ensures
        with_key(a + b, x) == with_key(a, x) + with_key(b, x),
    decreases b.len(),
{
    if b.len() == 0 {
        assert(a + b == a);
    } else {
        assert((a + b).drop_last() == a + b.drop_last());
        assert((a + b).last() == b.last());
        lemma_with_key_concat(a, b.drop_last(), x);
    }
}

proof fn lemma_with_key_none(s: Seq<KernelView>, x: KernelView)
    requires
        forall|k: int| 0 <= k < s.len() ==> !same_key(#[trigger] s[k], x),
    ensures
        with_key(s, x) == Seq::<KernelView>::empty(),
    decreases s.len(),
{
    if s.len() > 0 {
        assert(s.last() == s[s.len() - 1]);
        lemma_with_key_none(s.drop_last(), x);
    }
}

/// Inserting a kernel before the first later one keeps the kernels with
/// each sort key in their order, the new one last among its equals.
proof fn lemma_insert_keeps_key_order(ov: Seq<KernelView>, p: int, y: KernelView, x: KernelView)
    requires
        kernels_sorted(ov),
        0 <= p <= ov.len(),
        p < ov.len() ==> kernel_before(y, ov[p]),
    ensures
        with_key(ov.insert(p, y), x) == with_key(ov, x) + (if same_key(y, x) {
            seq![y]
        } else {
            Seq::empty()
        }),
{
    let front = ov.take(p);
    let back = ov.skip(p);
    assert(ov.insert(p, y) == front + seq![y] + back);
    assert(ov == front + back);
    lemma_with_key_concat(front + seq![y], back, x);
    lemma_with_key_concat(front, seq![y], x);
    lemma_with_key_concat(front, back, x);
    assert(seq![y].drop_last() == Seq::<KernelView>::empty());
    let wy: Seq<KernelView> = if same_key(y, x) {
        seq![y]
    } else {
        Seq::empty()
    };
    assert(with_key(Seq::<KernelView>::empty(), x) == Seq::<KernelView>::empty());
    assert(seq![y].last() == y);
    assert(Seq::<KernelView>::empty().push(y) == seq![y]);
    assert(with_key(seq![y], x) == wy);
    let wf = with_key(front, x);
    let wb = with_key(back, x);
    assert(with_key(ov.insert(p, y), x) == wf + wy + wb);
    assert(with_key(ov, x) == wf + wb);
    if same_key(y, x) {
        assert forall|k: int| 0 <= k < back.len() implies !same_key(#[trigger] back[k], x) by {
            assert(back[k] == ov[p + k]);
            if same_key(back[k], x) {
                if k > 0 {
                    assert(!kernel_before(ov[p + k], ov[p]));
                } else {
                    lemma_seq_lt_irreflexive(y.uname);
                }
            }
        }
        lemma_with_key_none(back, x);
        assert(wf + wy + wb =~= wf + wb + wy);
    } else {
        assert(wf + wy + wb =~= wf + wb + wy);
    }
}

/// The kernels sorted by install time, then by release; kernels with equal
/// install time and release keep their order.
pub fn sort_kernels(kernels: Vec<Kernel>) -> (r: Vec<Kernel>)
    ensures
        kernels_sorted(kernels_view(r@)),
        kernels_view(r@).to_multiset() == kernels_view(kernels@).to_multiset(),
        forall|x: KernelView| #[trigger] with_key(kernels_view(r@), x) == with_key(kernels_view(kernels@), x),
{
    let ghost kv = kernels_view(kernels@);
    let mut out: Vec<Kernel> = Vec::new();
    assert(kv.take(0) == Seq::<KernelView>::empty());
    assert(kernels_view(out@) == kv.take(0));
    for i in 0..kernels.len()
        invariant
            kv == kernels_view(kernels@),
            kv.len() == kernels.len(),
            kernels_sorted(kernels_view(out@)),
            kernels_view(out@).to_multiset() == kv.take(i as int).to_multiset(),
            forall|x: KernelView| #[trigger] with_key(kernels_view(out@), x) == with_key(kv.take(i as int), x),
    {
        let x = kernels[i].duplicate();
        let ghost ov = kernels_view(out@);
        let mut p: usize = 0;
        while p < out.len() && !(x.install_time < out[p].install_time || (x.install_time
            == out[p].install_time && lt_str(x.uname.as_str(), out[p].uname.as_str())))
            invariant
                ov == kernels_view(out@),
                p <= out.len(),
                forall|k: int| 0 <= k < p ==> !kernel_before(x@, #[trigger] ov[k]),
            decreases out.len() - p,
        {
            p = p + 1;
        }
        let ghost xv = x@;
        out.insert(p, x);
        proof {
            let nv = kernels_view(out@);
            assert(nv == ov.insert(p as int, xv));
            assert(kv.take(i + 1).drop_last() == kv.take(i as int));
            assert(kv.take(i + 1).last() == xv);
            assert forall|y: KernelView| #[trigger] with_key(nv, y) == with_key(kv.take(i + 1), y) by {
                lemma_insert_keeps_key_order(ov, p as int, xv, y);
            }
            assert forall|a: int, b: int| 0 <= a < b < nv.len() implies !kernel_before(
                #[trigger] nv[b],
                #[trigger] nv[a],
            ) by {
                if a < p && b == p {
                } else if a == p && b > p {
                    if kernel_before(nv[b], xv) {
                        assert(kernel_before(xv, ov[p as int]));
                        if b - 1 > p {
                            assert(!kernel_before(ov[b - 1], ov[p as int]));
                        }
                        lemma_kernel_before_transitive(nv[b], xv, ov[p as int]);
                        if b - 1 == p {
                            lemma_seq_lt_irreflexive(ov[p as int].uname);
                        }
                    }
                } else if a < p && b > p {
                    assert(nv[b] == ov[b - 1]);
                } else if a > p {
                    assert(nv[a] == ov[a - 1] && nv[b] == ov[b - 1]);
                }
            }
            assert(kv.take(i + 1) == kv.take(i as int).push(kv[i as int]));
            assert(xv == kv[i as int]);
            vstd::seq_lib::to_multiset_insert(ov, p as int, xv);
            vstd::seq_lib::to_multiset_build(kv.take(i as int), xv);
        }
    }
    assert(kv.take(kernels.len() as int) == kv);
    out
}

/// KMP modules are ordered by package, then by module.
pub open spec fn kmp_before(a: KmpModuleView, b: KmpModuleView) -> bool {
    seq_lt(a.package, b.package) || (a.package == b.package && seq_lt(a.module, b.module))
}

/// The KMP module order is transitive.
pub proof fn lemma_kmp_before_transitive(a: KmpModuleView, b: KmpModuleView, c: KmpModuleView)
    requires
        kmp_before(a, b),
        kmp_before(b, c),
    ensures
        kmp_before(a, c),
{
    if seq_lt(a.package, b.package) && seq_lt(b.package, c.package) {
        lemma_seq_lt_transitive(a.package, b.package, c.package);
    } else if a.package == b.package && b.package == c.package {
        lemma_seq_lt_transitive(a.module, b.module, c.module);
    }
}

/// No KMP module comes after a later one: sorted by package, then module.
pub open spec fn kmp_modules_sorted(s: Seq<KmpModuleView>) -> bool {
    forall|i: int, j: int| 0 <= i < j < s.len() ==> !kmp_before(#[trigger] s[j], #[trigger] s[i])
}

/// The KMP modules sorted by package, then by module; equal ones keep their
/// order.
pub fn sort_kmp_modules(modules: Vec<KmpModule>) -> (r: Vec<KmpModule>)
    ensures
        kmp_modules_sorted(kmp_modules_view(r@)),
        kmp_modules_view(r@).to_multiset() == kmp_modules_view(modules@).to_multiset(),
{
    let ghost mv = kmp_modules_view(modules@);
    let mut out: Vec<KmpModule> = Vec::new();
    assert(mv.take(0) == Seq::<KmpModuleView>::empty());
    assert(kmp_modules_view(out@) == mv.take(0));
    for i in 0..modules.len()
        invariant
            mv == kmp_modules_view(modules@),
            mv.len() == modules.len(),
            kmp_modules_sorted(kmp_modules_view(out@)),
            kmp_modules_view(out@).to_multiset() == mv.take(i as int).to_multiset(),
    {
        let x = KmpModule {
            package: modules[i].package.clone(),
            module: modules[i].module.clone(),
        };
        let ghost ov = kmp_modules_view(out@);
        let mut p: usize = 0;
        while p < out.len() && !(lt_str(x.package.as_str(), out[p].package.as_str()) || (eq_str(
            x.package.as_str(),
            out[p].package.as_str(),
        ) && lt_str(x.module.as_str(), out[p].module.as_str())))
            invariant
                ov == kmp_modules_view(out@),
                p <= out.len(),
                forall|k: int| 0 <= k < p ==> !kmp_before(x@, #[trigger] ov[k]),
            decreases out.len() - p,
        {
            p = p + 1;
        }
        let ghost xv = x@;
        out.insert(p, x);
        proof {
            let nv = kmp_modules_view(out@);
            assert(nv == ov.insert(p as int, xv));
            assert forall|a: int, b: int| 0 <= a < b < nv.len() implies !kmp_before(
                #[trigger] nv[b],
                #[trigger] nv[a],
            ) by {
                if a < p && b == p {
                } else if a == p && b > p {
                    if kmp_before(nv[b], xv) {
                        assert(kmp_before(xv, ov[p as int]));
                        if b - 1 > p {
                            assert(!kmp_before(ov[b - 1], ov[p as int]));
                        }
                        lemma_kmp_before_transitive(nv[b], xv, ov[p as int]);
                        if b - 1 == p {
                            lemma_seq_lt_irreflexive(ov[p as int].package);
                            lemma_seq_lt_irreflexive(ov[p as int].module);
                        }
                    }
                } else if a < p && b > p {
                    assert(nv[b] == ov[b - 1]);
                } else if a > p {
                    assert(nv[a] == ov[a - 1] && nv[b] == ov[b - 1]);
                }
            }
            assert(mv.take(i + 1) == mv.take(i as int).push(mv[i as int]));
            assert(xv == mv[i as int]);
            vstd::seq_lib::to_multiset_insert(ov, p as int, xv);
            vstd::seq_lib::to_multiset_build(mv.take(i as int), xv);
        }
    }
    assert(mv.take(modules.len() as int) == mv);
    out
}


/// A command output with its surrounding whitespace removed, as for
/// `uname -r`.
pub fn trimmed_output(output: &str) -> (r: String)
    ensures
        r@ == trim(output@),
{
    let c = chars_of(output);
    let t = trim_chars(c.as_slice());
    string_of(t.as_slice())
}

/// The first line of a command output, trimmed; empty when there is none,
/// as for `findmnt -no FSTYPE /`.
pub open spec fn spec_first_line(output: Seq<char>) -> Seq<char> {
    if lines(output).len() > 0 {
        trim(lines(output)[0])
    } else {
        Seq::empty()
    }
}

/// The first line of a command output, trimmed.
pub fn first_line_trimmed(output: &str) -> (r: String)
    ensures
        r@ == spec_first_line(output@),
{
    let c = chars_of(output);
    let ls = lines_chars(c.as_slice());
    assert(views(ls@).len() == ls.len());
    if ls.len() > 0 {
        assert(views(ls@)[0] == ls@[0]@);
        let t = trim_chars(ls[0].as_slice());
        string_of(t.as_slice())
    } else {
        String::new()
    }
}

/// A command output holds something besides whitespace, as the output of
/// `rpm -qa PATTERNS` does when a package matches.
pub fn has_content(output: &str) -> (r: bool)
    ensures
        r == (trim(output@).len() > 0),
{
    let c = chars_of(output);
    let t = trim_chars(c.as_slice());
    t.len() > 0
}


/// The kernels of a package keep those already listed, in front, and add
/// kernels of that package and install time, never `vmlinux` and never a
/// release twice: releases that were distinct stay distinct.
pub proof fn lemma_add_kernels_distinct(
    ks: Seq<KernelView>,
    package: Seq<char>,
    install_time: u64,
    ls: Seq<Seq<char>>,
)
    requires
        forall|i: int, j: int| 0 <= i < j < ks.len() ==> (#[trigger] ks[i]).uname != (#[trigger] ks[j]).uname,
    ensures
        ({
            let r = spec_add_kernels(ks, package, install_time, ls);
            &&& r.len() >= ks.len()
            &&& r.take(ks.len() as int) == ks
            &&& forall|i: int|
                ks.len() <= i < r.len() ==> (#[trigger] r[i]).uname != "vmlinux"@ && r[i].package
                    == package && r[i].install_time == install_time && !r[i].running
                    && !r[i].latest
            &&& forall|i: int, j: int|
                0 <= i < j < r.len() ==> (#[trigger] r[i]).uname != (#[trigger] r[j]).uname
        }),
    decreases ls.len(),
{
    if ls.len() == 0 {
        assert(ks.take(ks.len() as int) == ks);
    } else {
        lemma_add_kernels_distinct(ks, package, install_time, ls.drop_last());
        let prev = spec_add_kernels(ks, package, install_time, ls.drop_last());
        let r = spec_add_kernels(ks, package, install_time, ls);
        match provide_uname(ls.last()) {
            Some(u) => {
                if !(u == "vmlinux"@ || unames(prev).contains(u)) {
                    assert(r.take(ks.len() as int) == prev.take(ks.len() as int));
                    assert forall|i: int, j: int| 0 <= i < j < r.len() implies (
                    #[trigger] r[i]).uname != (#[trigger] r[j]).uname by {
                        if j == r.len() - 1 {
                            assert(r[i] == prev[i]);
                            assert(unames(prev)[i] == prev[i].uname);
                        } else {
                            assert(r[i] == prev[i] && r[j] == prev[j]);
                        }
                    }
                    assert forall|i: int| ks.len() <= i < r.len() implies (#[trigger] r[i]).uname
                        != "vmlinux"@ && r[i].package == package && r[i].install_time
                        == install_time && !r[i].running && !r[i].latest by {
                        if i < r.len() - 1 {
                            assert(r[i] == prev[i]);
                        }
                    }
                }
            },
            None => {},
        }
    }
}

/// The modules of a package keep those already listed, in front, and add
/// entries of that package, never the same entry twice: entries that were
/// distinct stay distinct.
pub proof fn lemma_add_kmp_modules_distinct(
    ms: Seq<KmpModuleView>,
    package: Seq<char>,
    ls: Seq<Seq<char>>,
)
    requires
        forall|i: int, j: int| 0 <= i < j < ms.len() ==> #[trigger] ms[i] != #[trigger] ms[j],
    ensures
        ({
            let r = spec_add_kmp_modules(ms, package, ls);
            &&& r.len() >= ms.len()
            &&& r.take(ms.len() as int) == ms
            &&& forall|i: int| ms.len() <= i < r.len() ==> (#[trigger] r[i]).package == package
            &&& forall|i: int, j: int| 0 <= i < j < r.len() ==> #[trigger] r[i] != #[trigger] r[j]
        }),
    decreases ls.len(),
{
    if ls.len() == 0 {
        assert(ms.take(ms.len() as int) == ms);
    } else {
        lemma_add_kmp_modules_distinct(ms, package, ls.drop_last());
        let prev = spec_add_kmp_modules(ms, package, ls.drop_last());
        let r = spec_add_kmp_modules(ms, package, ls);
        match spec_kmod_provide(trim(ls.last())) {
            Some(m) => {
                let e = KmpModuleView { package, module: m };
                if !prev.contains(e) {
                    assert(r.take(ms.len() as int) == prev.take(ms.len() as int));
                    assert forall|i: int, j: int| 0 <= i < j < r.len() implies #[trigger] r[i]
                        != #[trigger] r[j] by {
                        if j == r.len() - 1 {
                            assert(r[i] == prev[i]);
                        } else {
                            assert(r[i] == prev[i] && r[j] == prev[j]);
                        }
                    }
                    assert forall|i: int| ms.len() <= i < r.len() implies (
                    #[trigger] r[i]).package == package by {
                        if i < r.len() - 1 {
                            assert(r[i] == prev[i]);
                        }
                    }
                }
            },
            None => {},
        }
    }
}

} // verus!
