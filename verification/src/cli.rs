use crate::text::eq_str;
use vstd::prelude::*;

verus! {

/// The command line of `kmp-boot-check`.
pub struct CliArgs {
    /// The release given with `--kernel`.
    pub kernel: Option<String>,
    /// The configuration directories: the default one, then those given
    /// with `--config-dir`.
    pub config_dirs: Vec<String>,
    /// `--json`: print the JSON report.
    pub json: bool,
    /// `--strict` was given (the libzypp plugin passes it); an undetermined
    /// result exits with 3 either way.
    pub strict: bool,
    /// `--help` or `-h`: print the usage and exit.
    pub help: bool,
}

/// The value of a [`CliArgs`].
pub struct CliArgsView {
    pub kernel: Option<Seq<char>>,
    pub config_dirs: Seq<Seq<char>>,
    pub json: bool,
    pub strict: bool,
    pub help: bool,
}

impl View for CliArgs {
    type V = CliArgsView;

    open spec fn view(&self) -> CliArgsView {
        CliArgsView {
            kernel: match self.kernel {
                Some(k) => Some(k@),
                None => None,
            },
            config_dirs: self.config_dirs@.map_values(|s: String| s@),
            json: self.json,
            strict: self.strict,
            help: self.help,
        }
    }
}

/// The directory read when no other is given.
pub open spec fn default_config_dir() -> Seq<char> {
    "/etc/kmp-boot-check/modules.d"@
}

/// The command line after reading `raw` from position `i` on, from the state
/// `st`: `--kernel` takes the next argument (none when it is missing),
/// `--config-dir` adds the next argument when there is one, `--json` and
/// `--strict` set their flags, `--help` and `-h` stop the reading, and
/// anything else is ignored.
pub open spec fn spec_cli(raw: Seq<Seq<char>>, i: int, st: CliArgsView) -> CliArgsView
    decreases raw.len() + 2 - i,
{
    if i < 0 || i >= raw.len() {
        st
    } else {
        let a = raw[i];
        if a == "--kernel"@ {
            spec_cli(
                raw,
                i + 2,
                CliArgsView {
                    kernel: if i + 1 < raw.len() {
                        Some(raw[i + 1])
                    } else {
                        None
                    },
                    ..st
                },
            )
        } else if a == "--config-dir"@ {
            spec_cli(
                raw,
                i + 2,
                if i + 1 < raw.len() {
                    CliArgsView { config_dirs: st.config_dirs.push(raw[i + 1]), ..st }
                } else {
                    st
                },
            )
        } else if a == "--json"@ {
            spec_cli(raw, i + 1, CliArgsView { json: true, ..st })
        } else if a == "--strict"@ {
            spec_cli(raw, i + 1, CliArgsView { strict: true, ..st })
        } else if a == "--help"@ || a == "-h"@ {
            CliArgsView { help: true, ..st }
        } else {
            spec_cli(raw, i + 1, st)
        }
    }
}

/// The command line read from the arguments after the program name.
pub open spec fn spec_parse_args(raw: Seq<Seq<char>>) -> CliArgsView {
    spec_cli(
        raw,
        0,
        CliArgsView {
            kernel: None,
            config_dirs: seq![default_config_dir()],
            json: false,
            strict: false,
            help: false,
        },
    )
}

/// Reads the command line from the arguments after the program name.
pub fn parse_args(raw: Vec<String>) -> (r: CliArgs)
    ensures
        r@ == spec_parse_args(raw@.map_values(|s: String| s@)),
{
    let ghost rv = raw@.map_values(|s: String| s@);
    let mut dirs: Vec<String> = Vec::new();
    dirs.push(String::from_str("/etc/kmp-boot-check/modules.d"));
    let mut args = CliArgs {
        kernel: None,
        config_dirs: dirs,
        json: false,
        strict: false,
        help: false,
    };
    let mut index: usize = 0;
    assert(args.config_dirs@.map_values(|s: String| s@) =~= seq![default_config_dir()]);
    assert(args@ == CliArgsView {
        kernel: None,
        config_dirs: seq![default_config_dir()],
        json: false,
        strict: false,
        help: false,
    });
    while index < raw.len()
        invariant
            rv == raw@.map_values(|s: String| s@),
            rv.len() == raw.len(),
            index <= raw.len(),
            spec_parse_args(rv) == spec_cli(rv, index as int, args@),
        decreases raw.len() + 2 - index,
    {
        let a = raw[index].as_str();
        let ghost st = args@;
        if eq_str(a, "--kernel") {
            let ghost i = index as int;
            if index + 1 < raw.len() {
                args.kernel = Some(raw[index + 1].clone());
                index = index + 2;
            } else {
                args.kernel = None;
                index = raw.len();
            }
            assert(spec_cli(rv, i, st) == spec_cli(rv, i + 2, args@));
            assert(spec_cli(rv, i + 2, args@) == spec_cli(rv, index as int, args@));
            continue;
        } else if eq_str(a, "--config-dir") {
            let ghost i = index as int;
            if index + 1 < raw.len() {
                let ghost dirs = args.config_dirs@;
                args.config_dirs.push(raw[index + 1].clone());
                assert(args.config_dirs@.map_values(|s: String| s@) == dirs.map_values(
                    |s: String| s@,
                ).push(rv[index + 1]));
                index = index + 2;
            } else {
                index = raw.len();
            }
            assert(spec_cli(rv, i, st) == spec_cli(rv, i + 2, args@));
            assert(spec_cli(rv, i + 2, args@) == spec_cli(rv, index as int, args@));
            continue;
        } else if eq_str(a, "--json") {
            args.json = true;
        } else if eq_str(a, "--strict") {
            args.strict = true;
        } else if eq_str(a, "--help") || eq_str(a, "-h") {
            args.help = true;
            return args;
        }
        index = index + 1;
    }
    args
}

} // verus!
