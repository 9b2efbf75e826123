use crate::check::{lemma_seq_lt_asymmetric, lemma_seq_lt_transitive, lt_str, seq_lt};
use crate::model::{InitrdPolicy, ModulePolicy, ModulePolicyView, Severity};
use crate::probe::{package_answer, root_fstype_answer, SystemProbe};
use crate::text::{
    chars_of, ends_with, ends_with_chars, eq_chars, eq_str, join, lines, lines_chars,
    lowercase_chars, replace_char, replace_char_chars, split, split_chars, split_once,
    split_once_chars, starts_with, starts_with_chars, string_of, strip_prefix,
    strip_prefix_chars, to_ascii_lowercase, trim, trim_chars, trim_end_matches,
    trim_end_matches_chars, trim_start_matches, trim_start_matches_chars, views,
};
use crate::text::{ascii_lower, is_ws, lemma_trim_idempotent, lemma_trim_map, trim_end, trim_start};
use vstd::prelude::*;

verus! {

/// The characters `v` spell the word `w`.
pub fn is_word(v: &[char], w: &str) -> (r: bool)
    ensures
        r == (v@ == w@),
{
    let wc = chars_of(w);
    eq_chars(v, wc.as_slice())
}

/// The `initrd` setting that a configuration value names.
pub open spec fn spec_initrd_policy(value: Seq<char>) -> InitrdPolicy {
    let v = to_ascii_lowercase(trim(value));
    if v == "required"@ {
        InitrdPolicy::Required
    } else if v == "auto"@ {
        InitrdPolicy::Auto
    } else {
        InitrdPolicy::Optional
    }
}

/// Reads an `initrd` setting: `required` and `auto` in any case, anything
/// else is `Optional`.
pub fn parse_initrd_policy(value: &str) -> (r: InitrdPolicy)
    ensures
        r == spec_initrd_policy(value@),
{
    let c = chars_of(value);
    let t = trim_chars(c.as_slice());
    let v = lowercase_chars(t.as_slice());
    if is_word(v.as_slice(), "required") {
        InitrdPolicy::Required
    } else if is_word(v.as_slice(), "auto") {
        InitrdPolicy::Auto
    } else {
        InitrdPolicy::Optional
    }
}

/// A configuration value in lower case, with `_` read as `-`.
pub open spec fn normalized(value: Seq<char>) -> Seq<char> {
    replace_char(to_ascii_lowercase(trim(value)), '_', '-')
}

/// A configuration value in lower case, with `_` read as `-`.
fn normalize(value: &str) -> (r: Vec<char>)
    ensures
        r@ == normalized(value@),
{
    let c = chars_of(value);
    let t = trim_chars(c.as_slice());
    let l = lowercase_chars(t.as_slice());
    replace_char_chars(l.as_slice(), '_', '-')
}

/// The severity that a configuration value names.
pub open spec fn spec_severity(value: Seq<char>) -> Severity {
    let v = normalized(value);
    if v == "boot-risk"@ || v == "risk"@ {
        Severity::BootRisk
    } else if v == "unknown"@ {
        Severity::Unknown
    } else {
        Severity::Warning
    }
}

/// Reads a `severity` setting: `boot-risk` (also `risk`, `boot_risk`),
/// `unknown`, anything else is `Warning`.
pub fn parse_severity(value: &str) -> (r: Severity)
    ensures
        r == spec_severity(value@),
{
    let v = normalize(value);
    if is_word(v.as_slice(), "boot-risk") || is_word(v.as_slice(), "risk") {
        Severity::BootRisk
    } else if is_word(v.as_slice(), "unknown") {
        Severity::Unknown
    } else {
        Severity::Warning
    }
}

/// Whether an `enabled` setting leaves the policy on.
pub open spec fn spec_enabled(value: Seq<char>) -> bool {
    let v = normalized(value);
    !(v == "false"@ || v == "no"@ || v == "off"@ || v == "0"@)
}

/// Reads an `enabled` setting: `false`, `no`, `off` and `0` turn the policy
/// off, anything else leaves it on.
pub fn parse_enabled(value: &str) -> (r: bool)
    ensures
        r == spec_enabled(value@),
{
    let v = normalize(value);
    !(is_word(v.as_slice(), "false") || is_word(v.as_slice(), "no") || is_word(
        v.as_slice(),
        "off",
    ) || is_word(v.as_slice(), "0"))
}

/// Whether a `scope` setting restricts the policy to the important kernels.
pub open spec fn spec_important_scope(value: Seq<char>) -> bool {
    let v = normalized(value);
    v == "important"@ || v == "next-boot"@
}

/// Whether a `scope` setting restricts the policy to the next-boot kernel.
pub open spec fn spec_next_boot_scope(value: Seq<char>) -> bool {
    normalized(value) == "next-boot"@
}

/// Reads whether a `scope` setting restricts the policy to the important
/// kernels (the running, the latest, the next-boot and a requested one):
/// `important` and `next-boot` do; `all`, and anything else, applies it to
/// every kernel.
pub fn parse_scope(value: &str) -> (r: bool)
    ensures
        r == spec_important_scope(value@),
{
    let v = normalize(value);
    is_word(v.as_slice(), "important") || is_word(v.as_slice(), "next-boot")
}

/// Reads whether a `scope` setting restricts the policy to the kernel booted
/// next (and a requested one): only `next-boot` does.
pub fn parse_next_boot_scope(value: &str) -> (r: bool)
    ensures
        r == spec_next_boot_scope(value@),
{
    let v = normalize(value);
    is_word(v.as_slice(), "next-boot")
}


/// A `[module "..."]` section of a configuration file, as read so far.
#[derive(Debug)]
pub struct RawPolicy {
    pub name: String,
    pub module: Option<String>,
    pub detect: String,
    pub initrd: InitrdPolicy,
    pub severity: Severity,
    pub enabled: bool,
    pub important_kernels_only: bool,
    pub next_boot_only: bool,
}

/// The value of a [`RawPolicy`], with its strings as character sequences.
pub struct RawPolicyView {
    pub name: Seq<char>,
    pub module: Option<Seq<char>>,
    pub detect: Seq<char>,
    pub initrd: InitrdPolicy,
    pub severity: Severity,
    pub enabled: bool,
    pub important_kernels_only: bool,
    pub next_boot_only: bool,
}

impl View for RawPolicy {
    type V = RawPolicyView;

    open spec fn view(&self) -> RawPolicyView {
        RawPolicyView {
            name: self.name@,
            module: match self.module {
                Some(m) => Some(m@),
                None => None,
            },
            detect: self.detect@,
            initrd: self.initrd,
            severity: self.severity,
            enabled: self.enabled,
            important_kernels_only: self.important_kernels_only,
            next_boot_only: self.next_boot_only,
        }
    }
}

/// A fresh section: detected always, initrd optional, warning severity,
/// enabled, for every kernel.
pub open spec fn raw_new(name: Seq<char>) -> RawPolicyView {
    RawPolicyView {
        name,
        module: None,
        detect: "always"@,
        initrd: InitrdPolicy::Optional,
        severity: Severity::Warning,
        enabled: true,
        important_kernels_only: false,
        next_boot_only: false,
    }
}

/// A section after the setting `key = value`; unknown keys change nothing.
pub open spec fn raw_set(r: RawPolicyView, key: Seq<char>, value: Seq<char>) -> RawPolicyView {
    if key == "module"@ {
        RawPolicyView { module: Some(value), ..r }
    } else if key == "detect"@ {
        RawPolicyView { detect: value, ..r }
    } else if key == "initrd"@ {
        RawPolicyView { initrd: spec_initrd_policy(value), ..r }
    } else if key == "severity"@ {
        RawPolicyView { severity: spec_severity(value), ..r }
    } else if key == "enabled"@ {
        RawPolicyView { enabled: spec_enabled(value), ..r }
    } else if key == "scope"@ {
        RawPolicyView {
            important_kernels_only: spec_important_scope(value),
            next_boot_only: spec_next_boot_scope(value),
            ..r
        }
    } else {
        r
    }
}

/// The patterns of a `package:` detection: the comma-separated pieces,
/// trimmed, without the empty ones.
pub open spec fn nonempty_trimmed(pieces: Seq<Seq<char>>) -> Seq<Seq<char>>
    decreases pieces.len(),
{
    if pieces.len() == 0 {
        Seq::empty()
    } else {
        let prev = nonempty_trimmed(pieces.drop_last());
        if trim(pieces.last()).len() > 0 {
            prev.push(trim(pieces.last()))
        } else {
            prev
        }
    }
}

/// The package patterns named after `package:`.
pub open spec fn package_patterns(rest: Seq<char>) -> Seq<Seq<char>> {
    nonempty_trimmed(split(rest, ','))
}

/// Whether a detection rule enables its policy, and the reason given, for a
/// system whose `/` has type `root_fstype` and where a package matching the
/// rule's patterns is installed exactly when `packages_found`.
pub open spec fn spec_detect(value: Seq<char>, root_fstype: Seq<char>, packages_found: bool) -> (
    bool,
    Seq<char>,
) {
    let v = trim(value);
    if v == "always"@ {
        (true, "configured as always"@)
    } else if v == "never"@ {
        (false, "configured as never"@)
    } else {
        match strip_prefix(v, "rootfs:"@) {
            Some(rest) => (root_fstype == trim(rest), "/ is mounted as "@ + trim(rest)),
            None => match strip_prefix(v, "package:"@) {
                Some(rest) => (
                    packages_found,
                    "package pattern matched: "@ + join(package_patterns(rest), ", "@),
                ),
                None => (false, "unsupported detect value: "@ + v),
            },
        }
    }
}

/// The policy that a finished section gives, with the outcome of its
/// detection rule.
pub open spec fn spec_finish(r: RawPolicyView, detected: (bool, Seq<char>)) -> ModulePolicyView {
    ModulePolicyView {
        name: r.name,
        module: match r.module {
            Some(m) => m,
            None => r.name,
        },
        enabled: detected.0 && r.enabled,
        initrd: r.initrd,
        severity: r.severity,
        reason: detected.1,
        important_kernels_only: r.important_kernels_only,
        next_boot_only: r.next_boot_only,
    }
}

/// `p` is the policy that section `r` gives with the outcome of its
/// detection rule for the probe's answers.
pub open spec fn finished_by<P: SystemProbe + ?Sized>(
    probe: &P,
    p: ModulePolicyView,
    r: RawPolicyView,
) -> bool {
    exists|d: (bool, Seq<char>)| detect_probed(probe, r.detect, d) && p == spec_finish(r, d)
}

/// The patterns named after `package:`, each as a string.
fn package_pattern_list(rest: &[char]) -> (r: Vec<String>)
    ensures
        r@.map_values(|s: String| s@) == package_patterns(rest@),
{
    let pieces = split_chars(rest, ',');
    let ghost pv = views(pieces@);
    let mut out: Vec<String> = Vec::new();
    for i in 0..pieces.len()
        invariant
            pv == views(pieces@),
            pv.len() == pieces.len(),
            out@.map_values(|s: String| s@) == nonempty_trimmed(pv.take(i as int)),
    {
        assert(pv.take(i + 1).drop_last() == pv.take(i as int));
        let t = trim_chars(pieces[i].as_slice());
        if t.len() > 0 {
            let ghost prev = out@;
            out.push(string_of(t.as_slice()));
            assert(out@.map_values(|s: String| s@) == prev.map_values(|s: String| s@).push(t@));
        }
    }
    assert(pv.take(pieces.len() as int) == pv);
    out
}

/// The patterns joined with `, `.
fn join_patterns(list: &Vec<String>) -> (r: String)
    ensures
        r@ == join(list@.map_values(|s: String| s@), ", "@),
{
    let ghost lv = list@.map_values(|s: String| s@);
    let mut r = String::new();
    for i in 0..list.len()
        invariant
            lv == list@.map_values(|s: String| s@),
            lv.len() == list.len(),
            r@ == join(lv.take(i as int), ", "@),
    {
        assert(lv.take(i + 1).drop_last() == lv.take(i as int));
        if i > 0 {
            r.append(", ");
        }
        r.append(list[i].as_str());
    }
    assert(lv.take(list.len() as int) == lv);
    r
}

/// The outcome of a detection rule, given the probe's answers.
pub fn detect_with(value: &str, root_fstype: &str, packages_found: bool) -> (r: (bool, String))
    ensures
        (r.0, r.1@) == spec_detect(value@, root_fstype@, packages_found),
{
    let c = chars_of(value);
    let v = trim_chars(c.as_slice());
    if is_word(v.as_slice(), "always") {
        return (true, String::from_str("configured as always"));
    }
    if is_word(v.as_slice(), "never") {
        return (false, String::from_str("configured as never"));
    }
    let rootfs = chars_of("rootfs:");
    match strip_prefix_chars(v.as_slice(), rootfs.as_slice()) {
        Some(rest) => {
            let fs = trim_chars(rest.as_slice());
            let actual = chars_of(root_fstype);
            let mut reason = String::from_str("/ is mounted as ");
            let fs_string = string_of(fs.as_slice());
            reason.append(fs_string.as_str());
            return (eq_chars(actual.as_slice(), fs.as_slice()), reason);
        },
        None => {},
    }
    let package = chars_of("package:");
    match strip_prefix_chars(v.as_slice(), package.as_slice()) {
        Some(rest) => {
            let patterns = package_pattern_list(rest.as_slice());
            let mut reason = String::from_str("package pattern matched: ");
            let joined = join_patterns(&patterns);
            reason.append(joined.as_str());
            (packages_found, reason)
        },
        None => {
            let mut reason = String::from_str("unsupported detect value: ");
            let v_string = string_of(v.as_slice());
            reason.append(v_string.as_str());
            (false, reason)
        },
    }
}

/// `outcome` is what the detection rule `value` gives with the probe's
/// answers: `rootfs:` compares with the probe's answer about the type of
/// `/`; `package:` takes the probe's answer for exactly the rule's
/// patterns; the other rules ask nothing.
pub open spec fn detect_probed<P: SystemProbe + ?Sized>(
    probe: &P,
    value: Seq<char>,
    outcome: (bool, Seq<char>),
) -> bool {
    let v = trim(value);
    if v == "always"@ || v == "never"@ {
        outcome == spec_detect(value, Seq::empty(), false)
    } else {
        match strip_prefix(v, "rootfs:"@) {
            Some(_) => exists|fs: Seq<char>|
                root_fstype_answer(probe, fs) && outcome == spec_detect(value, fs, false),
            None => match strip_prefix(v, "package:"@) {
                Some(rest) => exists|found: bool|
                    package_answer(probe, package_patterns(rest), found) && outcome == spec_detect(
                        value,
                        Seq::empty(),
                        found,
                    ),
                None => outcome == spec_detect(value, Seq::empty(), false),
            },
        }
    }
}

/// Evaluates a detection rule, asking the probe only what the rule needs:
/// the root file system type for `rootfs:`, whether a package matching
/// exactly the rule's patterns is installed for `package:`.
pub fn detect_policy<P: SystemProbe + ?Sized>(value: &str, probe: &P) -> (r: (bool, String))
    ensures
        detect_probed(probe, value@, (r.0, r.1@)),
{
    let c = chars_of(value);
    let v = trim_chars(c.as_slice());
    let rootfs = chars_of("rootfs:");
    let package = chars_of("package:");
    if is_word(v.as_slice(), "always") || is_word(v.as_slice(), "never") {
        let r = detect_with(value, "", false);
        proof {
            reveal_strlit("");
        }
        assert(""@ == Seq::<char>::empty());
        return r;
    }
    match strip_prefix_chars(v.as_slice(), rootfs.as_slice()) {
        Some(_) => {
            let actual = probe.root_fstype();
            let r = detect_with(value, actual.as_str(), false);
            assert(root_fstype_answer(probe, actual@));
            return r;
        },
        None => {},
    }
    match strip_prefix_chars(v.as_slice(), package.as_slice()) {
        Some(rest) => {
            let patterns = package_pattern_list(rest.as_slice());
            let found = probe.has_installed_package(patterns.as_slice());
            let r = detect_with(value, "", found);
            proof {
            reveal_strlit("");
        }
        assert(""@ == Seq::<char>::empty());
            assert(package_answer(probe, package_patterns(rest@), found));
            r
        },
        None => {
            let r = detect_with(value, "", false);
            proof {
            reveal_strlit("");
        }
        assert(""@ == Seq::<char>::empty());
            r
        },
    }
}

impl RawPolicy {
    /// A fresh section with the given name.
    pub fn new(name: String) -> (r: RawPolicy)
        ensures
            r@ == raw_new(name@),
    {
        RawPolicy {
            name,
            module: None,
            detect: String::from_str("always"),
            initrd: InitrdPolicy::Optional,
            severity: Severity::Warning,
            enabled: true,
            important_kernels_only: false,
            next_boot_only: false,
        }
    }

    /// Applies the setting `key = value`: `module`, `detect`, `initrd`,
    /// `severity`, `enabled` and `scope` are known, other keys are ignored.
    pub fn set(&mut self, key: &str, value: &str)
        ensures
            final(self)@ == raw_set(old(self)@, key@, value@),
    {
        if eq_str(key, "module") {
            self.module = Some(String::from_str(value));
        } else if eq_str(key, "detect") {
            self.detect = String::from_str(value);
        } else if eq_str(key, "initrd") {
            self.initrd = parse_initrd_policy(value);
        } else if eq_str(key, "severity") {
            self.severity = parse_severity(value);
        } else if eq_str(key, "enabled") {
            self.enabled = parse_enabled(value);
        } else if eq_str(key, "scope") {
            self.important_kernels_only = parse_scope(value);
            self.next_boot_only = parse_next_boot_scope(value);
        }
    }

    /// The policy that this section gives, after asking the probe what its
    /// detection rule needs.
    ///
    /// The policy is the section's policy with the outcome of its detection
    /// rule for the probe's answers.
    pub fn finish<P: SystemProbe + ?Sized>(self, probe: &P) -> (r: ModulePolicy)
        ensures
            finished_by(probe, r@, self@),
    {
        let ghost me = self@;
        let (detected, reason) = detect_policy(self.detect.as_str(), probe);
        let module = match self.module {
            Some(m) => m,
            None => self.name.clone(),
        };
        let r = ModulePolicy {
            module,
            name: self.name,
            enabled: detected && self.enabled,
            initrd: self.initrd,
            severity: self.severity,
            reason,
            important_kernels_only: self.important_kernels_only,
            next_boot_only: self.next_boot_only,
        };
        assert(detect_probed(probe, me.detect, (detected, reason@)));
        assert(r@ == spec_finish(me, (detected, reason@)));
        r
    }
}


/// A line that carries nothing: empty, or a `#` or `;` comment.
pub open spec fn is_blank_or_comment(line: Seq<char>) -> bool {
    line.len() == 0 || starts_with(line, "#"@) || starts_with(line, ";"@)
}

/// A `[module "NAME"]` section header.
pub open spec fn is_section_header(line: Seq<char>) -> bool {
    starts_with(line, "[module \""@) && ends_with(line, "\"]"@)
}

/// The name in a section header.
pub open spec fn section_name(line: Seq<char>) -> Seq<char> {
    trim_end_matches(trim_start_matches(line, "[module \""@), "\"]"@)
}

/// The sections finished so far and the one being read.
pub type ConfigState = (Seq<RawPolicyView>, Option<RawPolicyView>);

/// The effect of one line of a configuration file: a header finishes the
/// open section and opens a new one; `key = value` sets a key of the open
/// section; every other line, and a setting outside any section, is ignored.
pub open spec fn config_step(st: ConfigState, raw_line: Seq<char>) -> ConfigState {
    let line = trim(raw_line);
    if is_blank_or_comment(line) {
        st
    } else if is_section_header(line) {
        (
            match st.1 {
                Some(p) => st.0.push(p),
                None => st.0,
            },
            Some(raw_new(section_name(line))),
        )
    } else {
        match split_once(line, "="@) {
            Some((key, value)) => match st.1 {
                Some(p) => (st.0, Some(raw_set(p, trim(key), trim(value)))),
                None => st,
            },
            None => st,
        }
    }
}

/// The state after reading the given lines.
pub open spec fn config_state(ls: Seq<Seq<char>>) -> ConfigState
    decreases ls.len(),
{
    if ls.len() == 0 {
        (Seq::empty(), None)
    } else {
        config_step(config_state(ls.drop_last()), ls.last())
    }
}

/// The sections of a configuration file, in order.
pub open spec fn spec_raw_policies(content: Seq<char>) -> Seq<RawPolicyView> {
    let st = config_state(lines(content));
    match st.1 {
        Some(p) => st.0.push(p),
        None => st.0,
    }
}

/// The views of a sequence of sections.
pub open spec fn raws_view(v: Seq<RawPolicy>) -> Seq<RawPolicyView> {
    v.map_values(|p: RawPolicy| p@)
}

/// The view of the section being read, if any.
pub open spec fn current_view(c: Option<RawPolicy>) -> Option<RawPolicyView> {
    match c {
        Some(p) => Some(p@),
        None => None,
    }
}

/// The sections of a configuration file, before their detection rules are
/// evaluated.
pub fn parse_raw_policies(content: &str) -> (r: Vec<RawPolicy>)
    ensures
        raws_view(r@) == spec_raw_policies(content@),
{
    let text = chars_of(content);
    let ls = lines_chars(text.as_slice());
    let ghost lv = views(ls@);
    let header_open = chars_of("[module \"");
    let header_close = chars_of("\"]");
    let hash = chars_of("#");
    let semicolon = chars_of(";");
    let equals = chars_of("=");
    let mut done: Vec<RawPolicy> = Vec::new();
    let mut current: Option<RawPolicy> = None;
    for i in 0..ls.len()
        invariant
            lv == views(ls@),
            lv.len() == ls.len(),
            header_open@ == "[module \""@,
            header_close@ == "\"]"@,
            hash@ == "#"@,
            semicolon@ == ";"@,
            equals@ == "="@,
            (raws_view(done@), current_view(current)) == config_state(lv.take(i as int)),
    {
        assert(lv.take(i + 1).drop_last() == lv.take(i as int));
        let line = trim_chars(ls[i].as_slice());
        assert(line@ == trim(lv[i as int]));
        if line.len() == 0 || starts_with_chars(line.as_slice(), hash.as_slice())
            || starts_with_chars(line.as_slice(), semicolon.as_slice()) {
        } else if starts_with_chars(line.as_slice(), header_open.as_slice()) && ends_with_chars(
            line.as_slice(),
            header_close.as_slice(),
        ) {
            let inner = trim_start_matches_chars(line.as_slice(), header_open.as_slice());
            let name = trim_end_matches_chars(inner.as_slice(), header_close.as_slice());
            let previous = current;
            match previous {
                Some(p) => {
                    let ghost before = done@;
                    done.push(p);
                    assert(raws_view(done@) == raws_view(before).push(p@));
                },
                None => {},
            }
            current = Some(RawPolicy::new(string_of(name.as_slice())));
        } else {
            match split_once_chars(line.as_slice(), equals.as_slice()) {
                Some((key, value)) => {
                    let k = trim_chars(key.as_slice());
                    let v = trim_chars(value.as_slice());
                    let ks = string_of(k.as_slice());
                    let vs = string_of(v.as_slice());
                    match &mut current {
                        Some(p) => {
                            p.set(ks.as_str(), vs.as_str());
                        },
                        None => {},
                    }
                },
                None => {},
            }
        }
    }
    assert(lv.take(ls.len() as int) == lv);
    match current {
        Some(p) => {
            let ghost before = done@;
            done.push(p);
            assert(raws_view(done@) == raws_view(before).push(p@));
        },
        None => {},
    }
    done
}

/// The policies of a configuration file, in order of their sections.
///
/// There is one policy per section, and each is its section's policy with
/// the outcome of its detection rule for the probe's answers.
pub fn parse_policy_config<P: SystemProbe + ?Sized>(content: &str, probe: &P) -> (r: Vec<
    ModulePolicy,
>)
    ensures
        r.len() == spec_raw_policies(content@).len(),
        forall|i: int|
            0 <= i < r.len() ==> finished_by(probe, #[trigger] r@[i]@, spec_raw_policies(content@)[i]),
{
    let mut raws = parse_raw_policies(content);
    let ghost all = raws_view(raws@);
    let mut policies: Vec<ModulePolicy> = Vec::new();
    while raws.len() > 0
        invariant
            all == spec_raw_policies(content@),
            policies.len() + raws.len() == all.len(),
            raws_view(raws@) == all.skip(policies.len() as int),
            forall|i: int| 0 <= i < policies.len() ==> finished_by(probe, #[trigger] policies@[i]@, all[i]),
        decreases raws.len(),
    {
        let ghost k = policies.len();
        let ghost before = policies@;
        let ghost rest = raws@;
        let raw = raws.remove(0);
        assert(all.skip(k as int)[0] == raws_view(rest)[0]);
        assert(raw@ == all[k as int]);
        assert(raws_view(raws@) =~= all.skip(k + 1)) by {
            assert forall|j: int| 0 <= j < raws@.len() implies raws_view(raws@)[j] == all.skip(
                k + 1,
            )[j] by {
                assert(raws@[j] == rest[j + 1]);
                assert(raws_view(rest)[j + 1] == all.skip(k as int)[j + 1]);
            }
        }
        let policy = raw.finish(probe);
        policies.push(policy);
        assert forall|i: int| 0 <= i < policies.len() implies finished_by(
            probe,
            #[trigger] policies@[i]@,
            all[i],
        ) by {
            if i < k {
                assert(policies@[i] == before[i]);
            }
        }
    }
    policies
}


/// A section with `enabled = false` (or `no`, `off`, `0`) gives a disabled
/// policy, whatever its detection rule finds; otherwise the policy is
/// enabled exactly when the rule finds the condition it names.
pub proof fn lemma_enabled_setting(r: RawPolicyView, value: Seq<char>, detected: (bool, Seq<char>))
    ensures
        !spec_enabled(value) ==> !spec_finish(raw_set(r, "enabled"@, value), detected).enabled,
        spec_finish(r, detected).enabled == (detected.0 && r.enabled),
{
    reveal_strlit("enabled");
    reveal_strlit("module");
    reveal_strlit("detect");
    reveal_strlit("initrd");
    reveal_strlit("severity");
    assert("enabled"@ != "module"@ && "enabled"@ != "detect"@ && "enabled"@ != "initrd"@
        && "enabled"@ != "severity"@) by {
        assert("enabled"@.len() == 7);
        assert("module"@.len() == 6 && "detect"@.len() == 6 && "initrd"@.len() == 6);
        assert("severity"@.len() == 8);
    }
}

/// Every section of a configuration file gives one policy, named after its
/// header, for the module it names (its own name when it names none).
pub proof fn lemma_sections_name_policies<P: SystemProbe + ?Sized>(
    probe: &P,
    content: Seq<char>,
    ps: Seq<ModulePolicyView>,
)
    requires
        ps.len() == spec_raw_policies(content).len(),
        forall|i: int|
            0 <= i < ps.len() ==> finished_by(probe, #[trigger] ps[i], spec_raw_policies(content)[i]),
    ensures
        forall|i: int|
            0 <= i < ps.len() ==> {
                let r = spec_raw_policies(content)[i];
                &&& (#[trigger] ps[i]).name == r.name
                &&& ps[i].module == (match r.module {
                    Some(m) => m,
                    None => r.name,
                })
                &&& ps[i].initrd == r.initrd
                &&& ps[i].severity == r.severity
            },
{
}


/// A file of a configuration directory is read when its extension is
/// `conf`: the name ends in `.conf` and has something before the dot.
pub open spec fn is_conf_name(name: Seq<char>) -> bool {
    name.len() > 5 && ends_with(name, ".conf"@)
}

/// The configuration file name `name` is read.
pub fn is_conf_file(name: &str) -> (r: bool)
    ensures
        r == is_conf_name(name@),
{
    let v = chars_of(name);
    let suffix = chars_of(".conf");
    proof {
        reveal_strlit(".conf");
    }
    v.len() > 5 && ends_with_chars(v.as_slice(), suffix.as_slice())
}

/// The positions in `names` of the configuration files of one directory, in
/// the order in which they are read: every `.conf` name once, sorted by name.
pub fn select_conf_files(names: &[String]) -> (r: Vec<usize>)
    ensures
        forall|k: int| 0 <= k < r.len() ==> #[trigger] r[k] < names.len() && is_conf_name(names@[r[k] as int]@),
        forall|i: int| 0 <= i < names.len() && is_conf_name(#[trigger] names@[i]@) ==> r@.contains(i as usize),
        forall|a: int, b: int| 0 <= a < b < r.len() ==> #[trigger] r[a] != #[trigger] r[b],
        forall|a: int, b: int| 0 <= a < b < r.len() ==> !seq_lt(names@[#[trigger] r[b] as int]@, names@[#[trigger] r[a] as int]@),
{
    let mut out: Vec<usize> = Vec::new();
    for i in 0..names.len()
        invariant
            forall|k: int| 0 <= k < out.len() ==> #[trigger] out[k] < i && is_conf_name(names@[out[k] as int]@),
            forall|j: int| 0 <= j < i && is_conf_name(#[trigger] names@[j]@) ==> out@.contains(j as usize),
            forall|a: int, b: int| 0 <= a < b < out.len() ==> #[trigger] out[a] != #[trigger] out[b],
            forall|a: int, b: int| 0 <= a < b < out.len() ==> !seq_lt(names@[#[trigger] out[b] as int]@, names@[#[trigger] out[a] as int]@),
    {
        if is_conf_file(names[i].as_str()) {
            let ghost ov = out@;
            let ghost x = names@[i as int]@;
            let mut p: usize = 0;
            while p < out.len() && !lt_str(names[i].as_str(), names[out[p]].as_str())
                invariant
                    ov == out@,
                    i < names.len(),
                    x == names@[i as int]@,
                    p <= out.len(),
                    forall|k: int| 0 <= k < out.len() ==> #[trigger] out[k] < i,
                    forall|k: int| 0 <= k < p ==> !seq_lt(x, names@[#[trigger] ov[k] as int]@),
                decreases out.len() - p,
            {
                p = p + 1;
            }
            out.insert(p, i);
            proof {
                let nv = out@;
                assert(nv == ov.insert(p as int, i));
                assert forall|a: int, b: int| 0 <= a < b < nv.len() implies !seq_lt(
                    names@[#[trigger] nv[b] as int]@,
                    names@[#[trigger] nv[a] as int]@,
                ) by {
                    if a < p && b == p {
                    } else if a == p && b > p {
                        let y = names@[ov[b - 1] as int]@;
                        let z = names@[ov[p as int] as int]@;
                        assert(nv[b] == ov[b - 1]);
                        if seq_lt(y, x) {
                            assert(seq_lt(x, z));
                            lemma_seq_lt_transitive(y, x, z);
                            if b - 1 == p {
                                lemma_seq_lt_asymmetric(y, x);
                            }
                        }
                    } else if a < p && b > p {
                        assert(nv[b] == ov[b - 1]);
                    } else if a > p {
                        assert(nv[a] == ov[a - 1] && nv[b] == ov[b - 1]);
                    }
                }
                assert forall|j: int| 0 <= j < i + 1 && is_conf_name(#[trigger] names@[j]@) implies nv.contains(j as usize) by {
                    if j == i {
                        assert(nv[p as int] == i);
                    } else {
                        let k = choose|k: int| 0 <= k < ov.len() && ov[k] == j as usize;
                        if k < p {
                            assert(nv[k] == ov[k]);
                        } else {
                            assert(nv[k + 1] == ov[k]);
                        }
                    }
                }
            }
        }
    }
    out
}


/// A spelling of a setting that differs from `value` only in the case of
/// its letters, in surrounding whitespace, or in `_` against `-`, is read as
/// the same `value`.
proof fn lemma_normalized_spellings(value: Seq<char>)
    ensures
        normalized(trim(value)) == normalized(value),
        normalized(to_ascii_lowercase(value)) == normalized(value),
        normalized(replace_char(value, '_', '-')) == normalized(value),
        normalized(replace_char(value, '-', '_')) == normalized(value),
{
    let lower = |c: char| ascii_lower(c);
    let dash = |c: char| if c == '_' { '-' } else { c };
    let under = |c: char| if c == '-' { '_' } else { c };
    assert forall|c: char| #[trigger] is_ws(lower(c)) == is_ws(c) by {
        if 'A' <= c && c <= 'Z' {
            assert('a' <= ascii_lower(c) && ascii_lower(c) <= 'z');
        }
    }
    assert forall|c: char| #[trigger] is_ws(dash(c)) == is_ws(c) by {}
    assert forall|c: char| #[trigger] is_ws(under(c)) == is_ws(c) by {}
    let t = trim(value);
    lemma_trim_idempotent(value);
    assert(to_ascii_lowercase(value) == value.map_values(lower));
    lemma_trim_map(value, lower);
    assert(to_ascii_lowercase(t) == t.map_values(lower));
    assert(to_ascii_lowercase(to_ascii_lowercase(t)) =~= to_ascii_lowercase(t));
    assert(replace_char(value, '_', '-') == value.map_values(dash));
    lemma_trim_map(value, dash);
    assert(replace_char(t, '_', '-') == t.map_values(dash));
    assert(replace_char(to_ascii_lowercase(replace_char(t, '_', '-')), '_', '-') =~= replace_char(
        to_ascii_lowercase(t),
        '_',
        '-',
    ));
    assert(replace_char(value, '-', '_') == value.map_values(under));
    lemma_trim_map(value, under);
    assert(replace_char(t, '-', '_') == t.map_values(under));
    assert(replace_char(to_ascii_lowercase(replace_char(t, '-', '_')), '_', '-') =~= replace_char(
        to_ascii_lowercase(t),
        '_',
        '-',
    ));
}

/// The documented severities read as themselves (`boot-risk` and `risk` as
/// a boot risk, `warning` as a warning, `unknown` as undetermined), and a
/// spelling that differs only in case, surrounding whitespace, or `_`
/// against `-` reads as the same severity.
pub proof fn lemma_severity_spellings(value: Seq<char>)
    ensures
        spec_severity("boot-risk"@) == Severity::BootRisk,
        spec_severity("risk"@) == Severity::BootRisk,
        spec_severity("warning"@) == Severity::Warning,
        spec_severity("unknown"@) == Severity::Unknown,
        spec_severity(trim(value)) == spec_severity(value),
        spec_severity(to_ascii_lowercase(value)) == spec_severity(value),
        spec_severity(replace_char(value, '_', '-')) == spec_severity(value),
        spec_severity(replace_char(value, '-', '_')) == spec_severity(value),
{
    lemma_normalized_spellings(value);
    reveal_strlit("boot-risk");
    reveal_strlit("risk");
    reveal_strlit("warning");
    reveal_strlit("unknown");
    lemma_plain_word("boot-risk"@);
    lemma_plain_word("risk"@);
    lemma_plain_word("warning"@);
    lemma_plain_word("unknown"@);
}

/// A word of small letters and `-` is its own normal form.
proof fn lemma_plain_word(w: Seq<char>)
    requires
        forall|i: int|
            0 <= i < w.len() ==> ('a' <= #[trigger] w[i] && w[i] <= 'z') || ('0' <= w[i] && w[i]
                <= '9') || w[i] == '-',
    ensures
        normalized(w) == w,
        to_ascii_lowercase(trim(w)) == w,
{
    if w.len() > 0 {
        assert(!is_ws(w[0]));
        assert(w.drop_first().len() < w.len());
        assert(!is_ws(w.last()));
    }
    assert(trim_start(w) == w);
    assert(trim_end(w) == w);
    assert(to_ascii_lowercase(w) =~= w);
    assert(replace_char(w, '_', '-') =~= w);
}

/// A spelling of an `initrd` setting that differs from `value` only in the
/// case of its letters or in surrounding whitespace reads the same.
proof fn lemma_lower_trim_spellings(value: Seq<char>)
    ensures
        to_ascii_lowercase(trim(trim(value))) == to_ascii_lowercase(trim(value)),
        to_ascii_lowercase(trim(to_ascii_lowercase(value))) == to_ascii_lowercase(trim(value)),
{
    let lower = |c: char| ascii_lower(c);
    assert forall|c: char| #[trigger] is_ws(lower(c)) == is_ws(c) by {
        if 'A' <= c && c <= 'Z' {
            assert('a' <= ascii_lower(c) && ascii_lower(c) <= 'z');
        }
    }
    let t = trim(value);
    lemma_trim_idempotent(value);
    assert(to_ascii_lowercase(value) == value.map_values(lower));
    lemma_trim_map(value, lower);
    assert(to_ascii_lowercase(t) == t.map_values(lower));
    assert(to_ascii_lowercase(to_ascii_lowercase(t)) =~= to_ascii_lowercase(t));
}

/// The documented `initrd`, `enabled` and `scope` values read as documented
/// (`required`, `auto` and `optional`; `false`, `no`, `off` and `0` turn a
/// policy off, `true` leaves it on; `next-boot` is for the next-boot kernel,
/// `important` for the important kernels, `all` for every kernel), and a
/// spelling that differs only in case or surrounding whitespace (and, for
/// `enabled` and `scope`, in `_` against `-`) reads the same.
pub proof fn lemma_setting_spellings(value: Seq<char>)
    ensures
        spec_initrd_policy("required"@) == InitrdPolicy::Required,
        spec_initrd_policy("auto"@) == InitrdPolicy::Auto,
        spec_initrd_policy("optional"@) == InitrdPolicy::Optional,
        spec_initrd_policy(trim(value)) == spec_initrd_policy(value),
        spec_initrd_policy(to_ascii_lowercase(value)) == spec_initrd_policy(value),
        !spec_enabled("false"@) && !spec_enabled("no"@) && !spec_enabled("off"@) && !spec_enabled(
            "0"@,
        ),
        spec_enabled("true"@),
        spec_enabled(trim(value)) == spec_enabled(value),
        spec_enabled(to_ascii_lowercase(value)) == spec_enabled(value),
        spec_enabled(replace_char(value, '_', '-')) == spec_enabled(value),
        spec_important_scope("next-boot"@) && spec_next_boot_scope("next-boot"@),
        spec_important_scope("important"@) && !spec_next_boot_scope("important"@),
        !spec_important_scope("all"@) && !spec_next_boot_scope("all"@),
        spec_important_scope(trim(value)) == spec_important_scope(value),
        spec_important_scope(to_ascii_lowercase(value)) == spec_important_scope(value),
        spec_important_scope(replace_char(value, '_', '-')) == spec_important_scope(value),
        spec_next_boot_scope(trim(value)) == spec_next_boot_scope(value),
        spec_next_boot_scope(to_ascii_lowercase(value)) == spec_next_boot_scope(value),
        spec_next_boot_scope(replace_char(value, '_', '-')) == spec_next_boot_scope(value),
{
    lemma_normalized_spellings(value);
    lemma_lower_trim_spellings(value);
    reveal_strlit("required");
    reveal_strlit("auto");
    reveal_strlit("optional");
    reveal_strlit("false");
    reveal_strlit("no");
    reveal_strlit("off");
    reveal_strlit("0");
    reveal_strlit("true");
    reveal_strlit("next-boot");
    reveal_strlit("important");
    reveal_strlit("all");
    lemma_plain_word("required"@);
    lemma_plain_word("auto"@);
    lemma_plain_word("optional"@);
    lemma_plain_word("false"@);
    lemma_plain_word("no"@);
    lemma_plain_word("off"@);
    lemma_plain_word("0"@);
    lemma_plain_word("true"@);
    lemma_plain_word("next-boot"@);
    lemma_plain_word("important"@);
    lemma_plain_word("all"@);
}

} // verus!
