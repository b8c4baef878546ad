//! The shop's command surface: the command-line flags and the one-letter
//! terminal commands.
//!
//! The flags are parsed here from the argument words; reading them from the
//! environment, like reading the terminal, happens outside the library.

use vstd::prelude::*;

use crate::text::all_digits;
use crate::text::num_val;
use crate::text::parse_u32;
use crate::text::str_eq;
use crate::text::strings_view;
use crate::text::to_upper;
use crate::text::upper_seq;

verus! {

/// The terminal command that exits the shop.
pub const EXIT: &'static str = "q";

/// The terminal command that triggers a manual backup.
pub const BACKUP: &'static str = "b";

/// How verbose the shop's logging runs.
#[derive(Debug, Clone, Copy, PartialEq, Eq, Structural)]
pub enum TraceLevel {
    Trace,
    Debug,
    Info,
    Warn,
    Error,
}

/// The shop's settings.
#[derive(Debug)]
pub struct Args {
    /// The port the shop listens on for robots.
    pub port: String,
    /// How verbose the logging runs.
    pub tracing_level: TraceLevel,
    /// The inventory file to load at startup.
    pub input_file: String,
    /// The prefix of manual backup file names.
    pub backup_file_prefix: String,
    /// How many confirm calls schedule an automatic backup.
    pub max_orders_before_backup: usize,
}

/// The settings as pure values, for saying what parsing returns.
pub struct ArgsSpec {
    pub tracing_level: TraceLevel,
    pub input_file: Seq<char>,
    pub backup_file_prefix: Seq<char>,
    pub max_orders_before_backup: u32,
}

/// The settings before any flag is read.
pub open spec fn sp_defaults() -> ArgsSpec {
    ArgsSpec {
        tracing_level: TraceLevel::Info,
        input_file: "data/stock_files/test_stock.csv"@,
        backup_file_prefix: "backup"@,
        max_orders_before_backup: 25u32,
    }
}

/// The level a word names, read without regard to case.
pub open spec fn sp_level(s: Seq<char>) -> Option<TraceLevel> {
    let u = upper_seq(s);
    if u == "TRACE"@ {
        Some(TraceLevel::Trace)
    } else if u == "DEBUG"@ {
        Some(TraceLevel::Debug)
    } else if u == "INFO"@ {
        Some(TraceLevel::Info)
    } else if u == "WARN"@ {
        Some(TraceLevel::Warn)
    } else if u == "ERROR"@ {
        Some(TraceLevel::Error)
    } else {
        None
    }
}

/// What the flag words from this position on leave behind: each flag takes
/// the following word as its value; a flag at the very end, with no value
/// after it, is ignored.  A bad level, a bad frequency, the help flag and any
/// unknown word refuse the whole line.
pub open spec fn sp_parse_args(args: Seq<Seq<char>>, i: int, cur: ArgsSpec) -> Option<ArgsSpec>
    decreases args.len() - i,
{
    if i < 0 || i >= args.len() {
        Some(cur)
    } else if args[i] == "-d"@ || args[i] == "--debug-level"@ {
        if i + 1 < args.len() {
            match sp_level(args[i + 1]) {
                Some(level) => sp_parse_args(
                    args,
                    i + 2,
                    ArgsSpec { tracing_level: level, ..cur },
                ),
                None => None,
            }
        } else {
            sp_parse_args(args, i + 1, cur)
        }
    } else if args[i] == "-i"@ || args[i] == "--inventory"@ {
        if i + 1 < args.len() {
            sp_parse_args(args, i + 2, ArgsSpec { input_file: args[i + 1], ..cur })
        } else {
            sp_parse_args(args, i + 1, cur)
        }
    } else if args[i] == "-b"@ || args[i] == "--backup-file-prefix"@ {
        if i + 1 < args.len() {
            sp_parse_args(args, i + 2, ArgsSpec { backup_file_prefix: args[i + 1], ..cur })
        } else {
            sp_parse_args(args, i + 1, cur)
        }
    } else if args[i] == "-f"@ || args[i] == "--backup-frequency"@ {
        if i + 1 < args.len() {
            if args[i + 1].len() > 0 && all_digits(args[i + 1]) && num_val(args[i + 1])
                <= u32::MAX {
                sp_parse_args(
                    args,
                    i + 2,
                    ArgsSpec {
                        max_orders_before_backup: num_val(args[i + 1]) as u32,
                        ..cur
                    },
                )
            } else {
                None
            }
        } else {
            sp_parse_args(args, i + 1, cur)
        }
    } else {
        None
    }
}

/// Whether the parsed settings carry the pure values.
pub open spec fn args_match(a: &Args, v: ArgsSpec) -> bool {
    &&& a.port@ == "9999"@
    &&& a.tracing_level == v.tracing_level
    &&& a.input_file@ == v.input_file
    &&& a.backup_file_prefix@ == v.backup_file_prefix
    &&& a.max_orders_before_backup == v.max_orders_before_backup
}

/// Reads the level a word names, without regard to case.
pub fn parse_level(s: &str) -> (r: Option<TraceLevel>)
    ensures
        r == sp_level(s@),
{
    let u = to_upper(s);
    if str_eq(u.as_str(), "TRACE") {
        Some(TraceLevel::Trace)
    } else if str_eq(u.as_str(), "DEBUG") {
        Some(TraceLevel::Debug)
    } else if str_eq(u.as_str(), "INFO") {
        Some(TraceLevel::Info)
    } else if str_eq(u.as_str(), "WARN") {
        Some(TraceLevel::Warn)
    } else if str_eq(u.as_str(), "ERROR") {
        Some(TraceLevel::Error)
    } else {
        None
    }
}

impl Args {
    /// Parses the command-line words (the program name already removed).
    /// Missing flags keep their defaults; a bad value, the help flag or an
    /// unknown word gives nothing back, and the shop prints its usage
    /// instead.
    pub fn parse_args(args: &Vec<String>) -> (r: Option<Args>)
        ensures
            match r {
                Some(a) => {
                    &&& sp_parse_args(strings_view(args@), 0, sp_defaults()) matches Some(v)
                    &&& args_match(&a, sp_parse_args(strings_view(args@), 0, sp_defaults()).unwrap())
                },
                None => sp_parse_args(strings_view(args@), 0, sp_defaults()) is None,
            },
    {
        let ghost av = strings_view(args@);
        let port_str: &str = "9999";
        let input_str: &str = "data/stock_files/test_stock.csv";
        let prefix_str: &str = "backup";
        let mut tracing_level = TraceLevel::Info;
        let mut input_file: String = input_str.to_owned();
        let mut backup_file_prefix: String = prefix_str.to_owned();
        let mut max_orders_before_backup: u32 = 25;
        let n = args.len();
        let mut i: usize = 0;
        while i < n
            invariant
                i <= n,
                n == args@.len(),
                av == strings_view(args@),
                sp_parse_args(av, 0, sp_defaults()) == sp_parse_args(
                    av,
                    i as int,
                    (ArgsSpec {
                        tracing_level: tracing_level,
                        input_file: input_file@,
                        backup_file_prefix: backup_file_prefix@,
                        max_orders_before_backup: max_orders_before_backup,
                    }),
                ),
            decreases n - i,
        {
            proof {
                assert(av[i as int] == args@[i as int]@);
                if i + 1 < n {
                    assert(av[i + 1] == args@[i + 1]@);
                }
            }
            let word = &args[i];
            if str_eq(word.as_str(), "-d") || str_eq(word.as_str(), "--debug-level") {
                if i + 1 < n {
                    match parse_level(args[i + 1].as_str()) {
                        Some(level) => {
                            tracing_level = level;
                            i = i + 2;
                        },
                        None => {
                            return None;
                        },
                    }
                } else {
                    i = i + 1;
                }
            } else if str_eq(word.as_str(), "-i") || str_eq(word.as_str(), "--inventory") {
                if i + 1 < n {
                    input_file = args[i + 1].clone();
                    i = i + 2;
                } else {
                    i = i + 1;
                }
            } else if str_eq(word.as_str(), "-b") || str_eq(
                word.as_str(),
                "--backup-file-prefix",
            ) {
                if i + 1 < n {
                    backup_file_prefix = args[i + 1].clone();
                    i = i + 2;
                } else {
                    i = i + 1;
                }
            } else if str_eq(word.as_str(), "-f") || str_eq(word.as_str(), "--backup-frequency") {
                if i + 1 < n {
                    match parse_u32(args[i + 1].as_str()) {
                        Some(freq) => {
                            max_orders_before_backup = freq;
                            i = i + 2;
                        },
                        None => {
                            return None;
                        },
                    }
                } else {
                    i = i + 1;
                }
            } else {
                return None;
            }
        }
        Some(
            Args {
                port: port_str.to_owned(),
                tracing_level,
                input_file,
                backup_file_prefix,
                max_orders_before_backup: max_orders_before_backup as usize,
            },
        )
    }
}

/// What one terminal line asks for.
#[derive(Debug, Clone, Copy, PartialEq, Eq, Structural)]
pub enum CommandAction {
    /// Stop the shop.
    Exit,
    /// Write a backup now.
    Backup,
    /// Anything else: ignored with a warning.
    Unknown,
}

/// Reads one terminal line: `q` exits, `b` backs up, anything else is
/// unknown.
pub fn interpret_command(line: &str) -> (r: CommandAction)
    ensures
        r == (if line@ == "q"@ {
            CommandAction::Exit
        } else if line@ == "b"@ {
            CommandAction::Backup
        } else {
            CommandAction::Unknown
        }),
{
    if str_eq(line, EXIT) {
        CommandAction::Exit
    } else if str_eq(line, BACKUP) {
        CommandAction::Backup
    } else {
        CommandAction::Unknown
    }
}

} // verus!
