//! Command-line options: `--socket <name>`, `--compositor <display>`,
//! `--max-clients <n>` and `--log-level <filter>` override the
//! configuration; `--config <file>` names a configuration file, `--pid-file
//! <file>` where a daemon writes its process id; `--daemon` and `--install`
//! ask for the bridge to detach, or to install itself as a user service.

use vstd::prelude::*;
use crate::config::BridgeConfig;

verus! {

/// Why the command line was refused.
#[derive(Debug, Clone, Copy, PartialEq, Eq, Structural)]
pub enum ArgError {
    /// An option was given without its value.
    MissingValue,
    /// `--max-clients` was not a decimal number that fits in 32 bits.
    BadNumber,
    /// An argument that is not one of the options.
    Unknown,
}

/// A configuration as values.
pub struct ConfigView {
    pub bridge_display: Seq<char>,
    pub compositor_display: Seq<char>,
    pub max_clients: u32,
    pub log_level: Option<Seq<char>>,
}

pub open spec fn config_view(c: BridgeConfig) -> ConfigView {
    ConfigView {
        bridge_display: c.bridge_display@,
        compositor_display: c.compositor_display@,
        max_clients: c.max_clients,
        log_level: match c.log_level {
            Some(l) => Some(l@),
            None => None,
        },
    }
}

pub open spec fn is_digit(c: char) -> bool {
    '0' <= c && c <= '9'
}

/// The number a string of decimal digits denotes.
pub open spec fn digits_value(s: Seq<char>) -> nat
    decreases s.len(),
{
    if s.len() == 0 {
        0
    } else {
        digits_value(s.drop_last()) * 10 + (s.last() as nat - '0' as nat) as nat
    }
}

/// The value of a non-empty decimal number that fits in 32 bits.
pub open spec fn parse_count(s: Seq<char>) -> Option<u32> {
    if s.len() > 0 && (forall|i: int| 0 <= i < s.len() ==> is_digit(#[trigger] s[i]))
        && digits_value(s) <= u32::MAX {
        Some(digits_value(s) as u32)
    } else {
        None
    }
}

proof fn lemma_digits_monotone(s: Seq<char>, i: int)
    requires
        0 <= i <= s.len(),
        forall|k: int| 0 <= k < s.len() ==> is_digit(#[trigger] s[k]),
    ensures
        digits_value(s.take(i)) <= digits_value(s),
    decreases s.len() - i,
{
    if i < s.len() {
        lemma_digits_monotone(s, i + 1);
        let t = s.take(i + 1);
        assert(t.drop_last() =~= s.take(i));
        assert(is_digit(t.last()));
        let v = digits_value(s.take(i));
        let d = (t.last() as nat - '0' as nat) as nat;
        assert(digits_value(t) == v * 10 + d);
        assert(v * 10 + d >= v) by (nonlinear_arith)
            requires
                v >= 0,
                d >= 0,
        ;
    } else {
        assert(s.take(i) =~= s);
    }
}

/// Parses the value of `--max-clients`.
pub fn parse_count_arg(s: &str) -> (r: Option<u32>)
    ensures
        r == parse_count(s@),
{
    let n = s.unicode_len();
    if n == 0 {
        return None;
    }
    let mut v: u64 = 0;
    let mut i: usize = 0;
    while i < n
        invariant
            n == s@.len(),
            i <= n,
            forall|k: int| 0 <= k < i ==> is_digit(#[trigger] s@[k]),
            v == digits_value(s@.take(i as int)),
            v <= u32::MAX,
        decreases n - i,
    {
        let c = s.get_char(i);
        if c < '0' || c > '9' {
            return None;
        }
        let d = (c as u32 - '0' as u32) as u64;
        assert(s@.take(i as int + 1).drop_last() =~= s@.take(i as int));
        let next = v * 10 + d;
        i = i + 1;
        if next > u32::MAX as u64 {
            proof {
                if forall|k: int| 0 <= k < s@.len() ==> is_digit(#[trigger] s@[k]) {
                    lemma_digits_monotone(s@, i as int);
                }
            }
            return None;
        }
        v = next;
    }
    assert(s@.take(n as int) =~= s@);
    Some(v as u32)
}

/// The options of a command line.
pub struct CommandLine {
    /// The configuration, with the options applied.
    pub config: BridgeConfig,
    /// `--daemon`: detach from the terminal.
    pub daemon: bool,
    /// `--install`: install the user service, then exit.
    pub install: bool,
    /// `--config`: the configuration file.
    pub config_file: Option<String>,
    /// `--pid-file`: where a daemon writes its process id.
    pub pid_file: Option<String>,
}

/// A command line as values.
pub struct CommandLineView {
    pub config: ConfigView,
    pub daemon: bool,
    pub install: bool,
    pub config_file: Option<Seq<char>>,
    pub pid_file: Option<Seq<char>>,
}

pub open spec fn opt_view(o: Option<String>) -> Option<Seq<char>> {
    match o {
        Some(s) => Some(s@),
        None => None,
    }
}

pub open spec fn command_line_view(c: CommandLine) -> CommandLineView {
    CommandLineView {
        config: config_view(c.config),
        daemon: c.daemon,
        install: c.install,
        config_file: opt_view(c.config_file),
        pid_file: opt_view(c.pid_file),
    }
}

/// Options that take a value.
pub open spec fn takes_value(flag: Seq<char>) -> bool {
    flag == "--socket"@ || flag == "--compositor"@ || flag == "--max-clients"@ || flag
        == "--log-level"@ || flag == "--config"@ || flag == "--pid-file"@
}

/// The command line after the options in `args`, or the first error.
pub open spec fn apply_args_spec(c: CommandLineView, args: Seq<Seq<char>>) -> Result<CommandLineView, ArgError>
    decreases args.len(),
{
    if args.len() == 0 {
        Ok(c)
    } else {
        let flag = args[0];
        let rest1 = args.subrange(1, args.len() as int);
        if flag == "--daemon"@ {
            apply_args_spec(CommandLineView { daemon: true, ..c }, rest1)
        } else if flag == "--install"@ {
            apply_args_spec(CommandLineView { install: true, ..c }, rest1)
        } else if !takes_value(flag) {
            Err(ArgError::Unknown)
        } else if args.len() < 2 {
            Err(ArgError::MissingValue)
        } else {
            let value = args[1];
            let rest = args.subrange(2, args.len() as int);
            let cfg = c.config;
            if flag == "--socket"@ {
                apply_args_spec(CommandLineView { config: ConfigView { bridge_display: value, ..cfg }, ..c }, rest)
            } else if flag == "--compositor"@ {
                apply_args_spec(CommandLineView { config: ConfigView { compositor_display: value, ..cfg }, ..c }, rest)
            } else if flag == "--log-level"@ {
                apply_args_spec(CommandLineView { config: ConfigView { log_level: Some(value), ..cfg }, ..c }, rest)
            } else if flag == "--config"@ {
                apply_args_spec(CommandLineView { config_file: Some(value), ..c }, rest)
            } else if flag == "--pid-file"@ {
                apply_args_spec(CommandLineView { pid_file: Some(value), ..c }, rest)
            } else {
                match parse_count(value) {
                    Some(n) => apply_args_spec(CommandLineView { config: ConfigView { max_clients: n, ..cfg }, ..c }, rest),
                    None => Err(ArgError::BadNumber),
                }
            }
        }
    }
}

pub open spec fn arg_views(args: Seq<String>) -> Seq<Seq<char>> {
    args.map_values(|a: String| a@)
}

/// The command line before any option: the configuration `cfg`, no switch
/// and no file.
pub open spec fn initial_view(cfg: ConfigView) -> CommandLineView {
    CommandLineView { config: cfg, daemon: false, install: false, config_file: None, pid_file: None }
}

/// Applies the command-line options `args` (the program name left out) to
/// `base`, in order; a later option overrides an earlier one.
pub fn apply_args(base: BridgeConfig, args: &Vec<String>) -> (r: Result<CommandLine, ArgError>)
    ensures
        match apply_args_spec(initial_view(config_view(base)), arg_views(args@)) {
            Ok(v) => r matches Ok(c) && command_line_view(c) == v,
            Err(e) => r is Err && r->Err_0 == e,
        },
{
    let socket = "--socket".to_string();
    let compositor = "--compositor".to_string();
    let max_clients = "--max-clients".to_string();
    let log_level = "--log-level".to_string();
    let config = "--config".to_string();
    let pid_file = "--pid-file".to_string();
    let daemon = "--daemon".to_string();
    let install = "--install".to_string();
    proof {
        reveal_strlit("--socket");
        reveal_strlit("--compositor");
        reveal_strlit("--max-clients");
        reveal_strlit("--log-level");
        reveal_strlit("--config");
        reveal_strlit("--pid-file");
        reveal_strlit("--daemon");
        reveal_strlit("--install");
    }
    let mut cl = CommandLine { config: base, daemon: false, install: false, config_file: None, pid_file: None };
    let mut i: usize = 0;
    assert(args@.subrange(0, args@.len() as int) =~= args@);
    while i < args.len()
        invariant
            socket@ == "--socket"@,
            compositor@ == "--compositor"@,
            max_clients@ == "--max-clients"@,
            log_level@ == "--log-level"@,
            config@ == "--config"@,
            pid_file@ == "--pid-file"@,
            daemon@ == "--daemon"@,
            install@ == "--install"@,
            i <= args@.len(),
            apply_args_spec(command_line_view(cl), arg_views(args@.subrange(i as int, args@.len() as int)))
                == apply_args_spec(initial_view(config_view(base)), arg_views(args@)),
        decreases args@.len() - i,
    {
        let ghost tail = arg_views(args@.subrange(i as int, args@.len() as int));
        assert(tail.len() == args@.len() - i);
        assert(tail[0] == args@[i as int]@);
        let flag = &args[i];
        if *flag == daemon || *flag == install {
            assert(arg_views(args@.subrange(i as int + 1, args@.len() as int)) =~= tail.subrange(1, tail.len() as int));
            if *flag == daemon {
                cl.daemon = true;
            } else {
                cl.install = true;
            }
            i = i + 1;
        } else {
            let known = *flag == socket || *flag == compositor || *flag == max_clients || *flag
                == log_level || *flag == config || *flag == pid_file;
            if !known {
                assert(apply_args_spec(command_line_view(cl), tail) == Err::<CommandLineView, ArgError>(ArgError::Unknown));
                return Err(ArgError::Unknown);
            }
            if i + 1 >= args.len() {
                assert(apply_args_spec(command_line_view(cl), tail) == Err::<CommandLineView, ArgError>(ArgError::MissingValue));
                return Err(ArgError::MissingValue);
            }
            let value = args[i + 1].clone();
            assert(tail[1] == value@);
            assert(arg_views(args@.subrange(i as int + 2, args@.len() as int)) =~= tail.subrange(2, tail.len() as int));
            if *flag == socket {
                cl.config.bridge_display = value;
            } else if *flag == compositor {
                cl.config.compositor_display = value;
            } else if *flag == log_level {
                cl.config.log_level = Some(value);
            } else if *flag == config {
                cl.config_file = Some(value);
            } else if *flag == pid_file {
                cl.pid_file = Some(value);
            } else {
                match parse_count_arg(value.as_str()) {
                    Some(n) => cl.config.max_clients = n,
                    None => return Err(ArgError::BadNumber),
                }
            }
            i = i + 2;
        }
    }
    assert(arg_views(args@.subrange(i as int, args@.len() as int)) =~= Seq::<Seq<char>>::empty());
    Ok(cl)
}

} // verus!
