//! The command-line grammar of foc-devnet.
//!
//! `Cli::try_parse_from` reads an argument list (the program name first) into
//! a `Cli`, by the rules of the tool's command line: subcommands, `--name`
//! flags, `--name value` and `--name=value` options, the `-f` short flag of
//! `logs`, `--` before positional values, `-h`/`--help`/`help`, and the rule
//! that `logs --tail` needs `--follow`.

use vstd::prelude::*;
use vstd::string::*;
use crate::text::{find_char, index_of_from, lemma_index_of_from, str_eq};

verus! {

/// CLI structure for foc-devnet.
#[derive(Debug, Clone)]
pub struct Cli {
    pub command: Commands,
}

/// Available subcommands.
#[derive(Debug, Clone)]
pub enum Commands {
    /// Start the local cluster.
    Start { parallel: bool },
    /// Stop the local cluster.
    Stop,
    /// Remove foc-devnet state. Preserves config.toml unless `all` is set.
    Clean { all: bool, images: bool },
    /// Initialize foc-devnet by building and caching Docker images.
    Init {
        curio: Option<String>,
        lotus: Option<String>,
        filecoin_services: Option<String>,
        pdp: Option<String>,
        proof_params_dir: Option<String>,
        rand: bool,
        no_docker_build: bool,
    },
    /// Build Filecoin projects in a container.
    Build { build_command: BuildCommands },
    /// Show status of the foc-devnet system.
    Status,
    /// Show combined logs for the current foc-devnet run.
    Logs { follow: bool, tail: Option<usize> },
    /// Show version information.
    Version { notty: bool },
}

/// Build subcommands.
#[derive(Debug, Clone)]
pub enum BuildCommands {
    /// Build Lotus, from the given source directory if one is given.
    Lotus { path: Option<String> },
    /// Build Curio, from the given source directory if one is given.
    Curio { path: Option<String> },
}

/// Config subcommands.
#[derive(Debug, Clone)]
pub enum ConfigCommands {
    /// Configure the Lotus source location.
    Lotus { source: String },
    /// Configure the Curio source location.
    Curio { source: String },
}

/// Why an argument list is not a foc-devnet command line.
#[derive(Debug, Clone)]
pub enum CliError {
    /// Help was asked for (`-h`, `--help` or `help`).
    Help,
    /// No subcommand was given where one is needed.
    MissingSubcommand,
    /// The given subcommand does not exist.
    UnknownSubcommand { name: String },
    /// An argument that the subcommand does not have.
    UnknownArgument { arg: String },
    /// A flag was given a value.
    UnexpectedValue { arg: String },
    /// An option was given without its value.
    MissingValue { arg: String },
    /// An option's value is not of its type.
    InvalidValue { arg: String, value: String },
    /// An argument was given twice.
    DuplicateArgument { arg: String },
    /// A positional value where the subcommand takes none (or no more).
    UnexpectedArgument { arg: String },
    /// An empty text where a path is needed.
    EmptyValue { arg: String },
    /// An argument that a given argument needs is missing.
    MissingRequired { arg: String },
}

/// The values of a `BuildCommands`.
pub enum BuildCommandsView {
    Lotus { path: Option<Seq<char>> },
    Curio { path: Option<Seq<char>> },
}

/// The values of a `Commands`.
pub enum CommandsView {
    Start { parallel: bool },
    Stop,
    Clean { all: bool, images: bool },
    Init {
        curio: Option<Seq<char>>,
        lotus: Option<Seq<char>>,
        filecoin_services: Option<Seq<char>>,
        pdp: Option<Seq<char>>,
        proof_params_dir: Option<Seq<char>>,
        rand: bool,
        no_docker_build: bool,
    },
    Build { build_command: BuildCommandsView },
    Status,
    Logs { follow: bool, tail: Option<usize> },
    Version { notty: bool },
}

/// The values of a `CliError`.
pub enum CliErrorView {
    Help,
    MissingSubcommand,
    UnknownSubcommand { name: Seq<char> },
    UnknownArgument { arg: Seq<char> },
    UnexpectedValue { arg: Seq<char> },
    MissingValue { arg: Seq<char> },
    InvalidValue { arg: Seq<char>, value: Seq<char> },
    DuplicateArgument { arg: Seq<char> },
    UnexpectedArgument { arg: Seq<char> },
    EmptyValue { arg: Seq<char> },
    MissingRequired { arg: Seq<char> },
}

/// The text of an optional string.
pub open spec fn opt_text(o: Option<String>) -> Option<Seq<char>> {
    match o {
        Some(s) => Some(s@),
        None => None,
    }
}

impl View for BuildCommands {
    type V = BuildCommandsView;

    open spec fn view(&self) -> BuildCommandsView {
        match self {
            BuildCommands::Lotus { path } => BuildCommandsView::Lotus { path: opt_text(*path) },
            BuildCommands::Curio { path } => BuildCommandsView::Curio { path: opt_text(*path) },
        }
    }
}

impl View for Commands {
    type V = CommandsView;

    open spec fn view(&self) -> CommandsView {
        match self {
            Commands::Start { parallel } => CommandsView::Start { parallel: *parallel },
            Commands::Stop => CommandsView::Stop,
            Commands::Clean { all, images } => CommandsView::Clean { all: *all, images: *images },
            Commands::Init {
                curio,
                lotus,
                filecoin_services,
                pdp,
                proof_params_dir,
                rand,
                no_docker_build,
            } => CommandsView::Init {
                curio: opt_text(*curio),
                lotus: opt_text(*lotus),
                filecoin_services: opt_text(*filecoin_services),
                pdp: opt_text(*pdp),
                proof_params_dir: opt_text(*proof_params_dir),
                rand: *rand,
                no_docker_build: *no_docker_build,
            },
            Commands::Build { build_command } => CommandsView::Build {
                build_command: build_command@,
            },
            Commands::Status => CommandsView::Status,
            Commands::Logs { follow, tail } => CommandsView::Logs { follow: *follow, tail: *tail },
            Commands::Version { notty } => CommandsView::Version { notty: *notty },
        }
    }
}

impl View for CliError {
    type V = CliErrorView;

    open spec fn view(&self) -> CliErrorView {
        match self {
            CliError::Help => CliErrorView::Help,
            CliError::MissingSubcommand => CliErrorView::MissingSubcommand,
            CliError::UnknownSubcommand { name } => CliErrorView::UnknownSubcommand { name: name@ },
            CliError::UnknownArgument { arg } => CliErrorView::UnknownArgument { arg: arg@ },
            CliError::UnexpectedValue { arg } => CliErrorView::UnexpectedValue { arg: arg@ },
            CliError::MissingValue { arg } => CliErrorView::MissingValue { arg: arg@ },
            CliError::InvalidValue { arg, value } => CliErrorView::InvalidValue {
                arg: arg@,
                value: value@,
            },
            CliError::DuplicateArgument { arg } => CliErrorView::DuplicateArgument { arg: arg@ },
            CliError::UnexpectedArgument { arg } => CliErrorView::UnexpectedArgument { arg: arg@ },
            CliError::EmptyValue { arg } => CliErrorView::EmptyValue { arg: arg@ },
            CliError::MissingRequired { arg } => CliErrorView::MissingRequired { arg: arg@ },
        }
    }
}

/// The meaning of a parse result.
pub open spec fn parse_result_view(r: Result<Cli, CliError>) -> Result<CommandsView, CliErrorView> {
    match r {
        Ok(cli) => Ok(cli.command@),
        Err(e) => Err(e@),
    }
}

// ---------------------------------------------------------------------------
// Numbers

/// `c` is an ASCII decimal digit.
pub open spec fn is_decimal_digit(c: char) -> bool {
    48 <= (c as u32) <= 57
}

/// The number that a sequence of decimal digits writes.
pub open spec fn decimal_value(d: Seq<char>) -> nat
    decreases d.len(),
{
    if d.len() == 0 {
        0
    } else {
        decimal_value(d.drop_last()) * 10 + ((d.last() as u32) - 48) as nat
    }
}

/// The digits part of a number text: without a leading `+`, if any.
pub open spec fn unsigned_digits(s: Seq<char>) -> Seq<char> {
    if s.len() > 0 && s[0] == '+' {
        s.subrange(1, s.len() as int)
    } else {
        s
    }
}

/// Every character of `d` is a decimal digit.
pub open spec fn all_decimal_digits(d: Seq<char>) -> bool {
    forall|i: int| 0 <= i < d.len() ==> is_decimal_digit(#[trigger] d[i])
}

/// The `usize` that a text denotes, as `usize::from_str` reads it: an
/// optional `+`, then one or more decimal digits, of a value that fits.
pub open spec fn parsed_usize(s: Seq<char>) -> Option<usize> {
    let d = unsigned_digits(s);
    if d.len() > 0 && all_decimal_digits(d) && decimal_value(d) <= usize::MAX {
        Some(decimal_value(d) as usize)
    } else {
        None
    }
}

/// Reads a `usize` as `usize::from_str` does.
pub fn parse_usize(s: &str) -> (r: Option<usize>)
    ensures
        r == parsed_usize(s@),
{
    let n = s.unicode_len();
    let mut start: usize = 0;
    if n > 0 && s.get_char(0) == '+' {
        start = 1;
    }
    let ghost d = unsigned_digits(s@);
    assert(d =~= s@.subrange(start as int, n as int));
    if start == n {
        return None;
    }
    let mut i = start;
    let mut acc: usize = 0;
    let mut overflow = false;
    proof {
        assert(s@.subrange(start as int, start as int) =~= Seq::<char>::empty());
    }
    while i < n
        invariant
            n == s@.len(),
            start <= i <= n,
            d == s@.subrange(start as int, n as int),
            d == unsigned_digits(s@),
            forall|j: int| start <= j < i ==> is_decimal_digit(#[trigger] s@[j]),
            !overflow ==> acc == decimal_value(s@.subrange(start as int, i as int)),
            overflow ==> decimal_value(s@.subrange(start as int, i as int)) > usize::MAX,
        decreases n - i,
    {
        let c = s.get_char(i);
        let code = c as u32;
        if code < 48 || code > 57 {
            proof {
                assert(d[i - start] == c);
                assert(!is_decimal_digit(d[i - start]));
            }
            return None;
        }
        let digit = (code - 48) as usize;
        proof {
            let prefix = s@.subrange(start as int, i + 1);
            assert(prefix.drop_last() =~= s@.subrange(start as int, i as int));
            assert(prefix.last() == c);
            assert(decimal_value(prefix) == decimal_value(s@.subrange(start as int, i as int)) * 10
                + digit);
        }
        if !overflow {
            match acc.checked_mul(10) {
                Some(m) => match m.checked_add(digit) {
                    Some(v) => {
                        acc = v;
                    },
                    None => {
                        overflow = true;
                    },
                },
                None => {
                    overflow = true;
                },
            }
        }
        i += 1;
    }
    proof {
        assert(s@.subrange(start as int, n as int) =~= d);
        assert forall|j: int| 0 <= j < d.len() implies is_decimal_digit(#[trigger] d[j]) by {
            assert(d[j] == s@[start + j]);
        }
    }
    if overflow {
        None
    } else {
        Some(acc)
    }
}


// ---------------------------------------------------------------------------
// The grammar

/// The subcommand whose arguments are being read.
#[derive(Debug, Clone, Copy, PartialEq, Eq, Structural)]
pub enum Subcommand {
    Start,
    Stop,
    Clean,
    Init,
    BuildLotus,
    BuildCurio,
    Status,
    Logs,
    Version,
}

/// The number of named arguments over all subcommands. They are numbered:
/// 0 `--parallel`; 1 `--all`, 2 `--images`; 3 `--curio`, 4 `--lotus`,
/// 5 `--filecoin-services`, 6 `--pdp`, 7 `--proof-params-dir`, 8 `--rand`,
/// 9 `--no-docker-build`; 10 `--follow`, 11 `--tail`; 12 `--notty`.
pub const ARG_COUNT: usize = 13;

/// The named argument `--<name>` of a subcommand, if it has one.
pub open spec fn long_arg(sub: Subcommand, name: Seq<char>) -> Option<usize> {
    match sub {
        Subcommand::Start => if name == "parallel"@ {
            Some(0)
        } else {
            None
        },
        Subcommand::Clean => if name == "all"@ {
            Some(1)
        } else if name == "images"@ {
            Some(2)
        } else {
            None
        },
        Subcommand::Init => if name == "curio"@ {
            Some(3)
        } else if name == "lotus"@ {
            Some(4)
        } else if name == "filecoin-services"@ {
            Some(5)
        } else if name == "pdp"@ {
            Some(6)
        } else if name == "proof-params-dir"@ {
            Some(7)
        } else if name == "rand"@ {
            Some(8)
        } else if name == "no-docker-build"@ {
            Some(9)
        } else {
            None
        },
        Subcommand::Logs => if name == "follow"@ {
            Some(10)
        } else if name == "tail"@ {
            Some(11)
        } else {
            None
        },
        Subcommand::Version => if name == "notty"@ {
            Some(12)
        } else {
            None
        },
        _ => None,
    }
}

/// Looks up `long_arg`.
fn find_long_arg(sub: Subcommand, name: &str) -> (r: Option<usize>)
    ensures
        r == long_arg(sub, name@),
{
    match sub {
        Subcommand::Start => if str_eq(name, "parallel") {
            Some(0)
        } else {
            None
        },
        Subcommand::Clean => if str_eq(name, "all") {
            Some(1)
        } else if str_eq(name, "images") {
            Some(2)
        } else {
            None
        },
        Subcommand::Init => if str_eq(name, "curio") {
            Some(3)
        } else if str_eq(name, "lotus") {
            Some(4)
        } else if str_eq(name, "filecoin-services") {
            Some(5)
        } else if str_eq(name, "pdp") {
            Some(6)
        } else if str_eq(name, "proof-params-dir") {
            Some(7)
        } else if str_eq(name, "rand") {
            Some(8)
        } else if str_eq(name, "no-docker-build") {
            Some(9)
        } else {
            None
        },
        Subcommand::Logs => if str_eq(name, "follow") {
            Some(10)
        } else if str_eq(name, "tail") {
            Some(11)
        } else {
            None
        },
        Subcommand::Version => if str_eq(name, "notty") {
            Some(12)
        } else {
            None
        },
        _ => None,
    }
}

/// The named argument `-<c>` of a subcommand, if it has one: only `logs -f`.
pub open spec fn short_arg(sub: Subcommand, c: char) -> Option<usize> {
    if sub == Subcommand::Logs && c == 'f' {
        Some(10)
    } else {
        None
    }
}

/// The named arguments that take a value: the source locations of `init`
/// and `--tail`.
pub open spec fn takes_value(a: usize) -> bool {
    (3 <= a && a <= 7) || a == 11
}

/// The subcommands that take a positional value: the build targets' path.
pub open spec fn takes_positional(sub: Subcommand) -> bool {
    sub == Subcommand::BuildLotus || sub == Subcommand::BuildCurio
}

/// `--`: every later token is a positional value.
pub open spec fn is_escape(t: Seq<char>) -> bool {
    t.len() == 2 && t[0] == '-' && t[1] == '-'
}

/// `--<name>` or `--<name>=<value>`.
pub open spec fn is_long(t: Seq<char>) -> bool {
    t.len() > 2 && t[0] == '-' && t[1] == '-'
}

/// `-<chars>`: one or more short flags.
pub open spec fn is_short(t: Seq<char>) -> bool {
    t.len() >= 2 && t[0] == '-' && t[1] != '-'
}

/// A token that can be the value of an option given as `--<name> <value>`:
/// it does not start with `-`, or it is `-` alone.
pub open spec fn value_like(t: Seq<char>) -> bool {
    t.len() == 0 || t[0] != '-' || t.len() == 1
}

/// What has been read of a subcommand's arguments: the value of each named
/// argument given (an empty text for a flag), the `--tail` number, the
/// positional value, and whether `--` was seen.
pub struct ScanState {
    pub values: Seq<Option<Seq<char>>>,
    pub tail: Option<usize>,
    pub positional: Option<Seq<char>>,
    pub escaped: bool,
}

/// Nothing read yet.
pub open spec fn initial_scan_state() -> ScanState {
    ScanState {
        values: Seq::new(ARG_COUNT as nat, |i: int| None),
        tail: None,
        positional: None,
        escaped: false,
    }
}

/// `st` with named argument `a` given the value `v`.
pub open spec fn with_value(st: ScanState, a: usize, v: Seq<char>) -> ScanState {
    ScanState { values: st.values.update(a as int, Some(v)), ..st }
}

/// Reads a positional value: the one path of a build target, which must not
/// be empty.
pub open spec fn read_positional(sub: Subcommand, t: Seq<char>, st: ScanState) -> Result<
    ScanState,
    CliErrorView,
> {
    if takes_positional(sub) && st.positional is None {
        if t.len() == 0 {
            Err(CliErrorView::EmptyValue { arg: "[PATH]"@ })
        } else {
            Ok(ScanState { positional: Some(t), ..st })
        }
    } else {
        Err(CliErrorView::UnexpectedArgument { arg: t })
    }
}

/// Stores the value `v` of option `a`, given in token `t`.
pub open spec fn store_value(a: usize, v: Seq<char>, t: Seq<char>, st: ScanState) -> Result<
    ScanState,
    CliErrorView,
> {
    if a == 11 {
        match parsed_usize(v) {
            Some(n) => Ok(ScanState { tail: Some(n), ..with_value(st, a, v) }),
            None => Err(CliErrorView::InvalidValue { arg: t, value: v }),
        }
    } else {
        Ok(with_value(st, a, v))
    }
}

/// Reads the short flags of token `t` from position `j` on.
pub open spec fn read_shorts(sub: Subcommand, t: Seq<char>, j: int, st: ScanState) -> Result<
    ScanState,
    CliErrorView,
>
    decreases t.len() - j,
{
    if j >= t.len() {
        Ok(st)
    } else if t[j] == 'h' {
        Err(CliErrorView::Help)
    } else {
        match short_arg(sub, t[j]) {
            None => Err(CliErrorView::UnknownArgument { arg: t }),
            Some(a) => if st.values[a as int] is Some {
                Err(CliErrorView::DuplicateArgument { arg: t })
            } else {
                read_shorts(sub, t, j + 1, with_value(st, a, Seq::empty()))
            },
        }
    }
}

/// Reads the long argument at position `i`; the flag says whether the next
/// token was read as its value.
pub open spec fn read_long(sub: Subcommand, toks: Seq<Seq<char>>, i: int, st: ScanState) -> Result<
    (bool, ScanState),
    CliErrorView,
> {
    let t = toks[i];
    let body = t.subrange(2, t.len() as int);
    let k = index_of_from(body, '=', 0);
    let name = body.subrange(0, k);
    let inline = if k < body.len() {
        Some(body.subrange(k + 1, body.len() as int))
    } else {
        None
    };
    if name == "help"@ {
        if inline is None {
            Err(CliErrorView::Help)
        } else {
            Err(CliErrorView::UnexpectedValue { arg: t })
        }
    } else {
        match long_arg(sub, name) {
            None => Err(CliErrorView::UnknownArgument { arg: t }),
            Some(a) => if st.values[a as int] is Some {
                Err(CliErrorView::DuplicateArgument { arg: t })
            } else if !takes_value(a) {
                if inline is Some {
                    Err(CliErrorView::UnexpectedValue { arg: t })
                } else {
                    Ok((false, with_value(st, a, Seq::empty())))
                }
            } else {
                match inline {
                    Some(v) => match store_value(a, v, t, st) {
                        Ok(s) => Ok((false, s)),
                        Err(e) => Err(e),
                    },
                    None => if i + 1 < toks.len() && value_like(toks[i + 1]) {
                        match store_value(a, toks[i + 1], t, st) {
                            Ok(s) => Ok((true, s)),
                            Err(e) => Err(e),
                        }
                    } else {
                        Err(CliErrorView::MissingValue { arg: t })
                    },
                }
            },
        }
    }
}

/// Reads the token at position `i`; the flag says whether the next token was
/// read too.
pub open spec fn read_token(sub: Subcommand, toks: Seq<Seq<char>>, i: int, st: ScanState) -> Result<
    (bool, ScanState),
    CliErrorView,
> {
    let t = toks[i];
    if st.escaped || (!is_escape(t) && !is_long(t) && !is_short(t)) {
        match read_positional(sub, t, st) {
            Ok(s) => Ok((false, s)),
            Err(e) => Err(e),
        }
    } else if is_escape(t) {
        Ok((false, ScanState { escaped: true, ..st }))
    } else if is_long(t) {
        read_long(sub, toks, i, st)
    } else {
        match read_shorts(sub, t, 1, st) {
            Ok(s) => Ok((false, s)),
            Err(e) => Err(e),
        }
    }
}

/// The command that the arguments read give, once all are read.
pub open spec fn finish_scan(sub: Subcommand, st: ScanState) -> Result<CommandsView, CliErrorView> {
    let given = |a: int| st.values[a] is Some;
    match sub {
        Subcommand::Start => Ok(CommandsView::Start { parallel: given(0) }),
        Subcommand::Stop => Ok(CommandsView::Stop),
        Subcommand::Clean => Ok(CommandsView::Clean { all: given(1), images: given(2) }),
        Subcommand::Init => Ok(
            CommandsView::Init {
                curio: st.values[3],
                lotus: st.values[4],
                filecoin_services: st.values[5],
                pdp: st.values[6],
                proof_params_dir: st.values[7],
                rand: given(8),
                no_docker_build: given(9),
            },
        ),
        Subcommand::BuildLotus => Ok(
            CommandsView::Build { build_command: BuildCommandsView::Lotus { path: st.positional } },
        ),
        Subcommand::BuildCurio => Ok(
            CommandsView::Build { build_command: BuildCommandsView::Curio { path: st.positional } },
        ),
        Subcommand::Status => Ok(CommandsView::Status),
        Subcommand::Logs => if given(11) && !given(10) {
            Err(CliErrorView::MissingRequired { arg: "--follow"@ })
        } else {
            Ok(CommandsView::Logs { follow: given(10), tail: st.tail })
        },
        Subcommand::Version => Ok(CommandsView::Version { notty: given(12) }),
    }
}

/// Reads the tokens of a subcommand from position `i` on.
pub open spec fn scan_args(sub: Subcommand, toks: Seq<Seq<char>>, i: int, st: ScanState) -> Result<
    CommandsView,
    CliErrorView,
>
    decreases toks.len() - i,
{
    if i >= toks.len() {
        finish_scan(sub, st)
    } else {
        match read_token(sub, toks, i, st) {
            Err(e) => Err(e),
            Ok((two, s)) => scan_args(
                sub,
                toks,
                if two {
                    i + 2
                } else {
                    i + 1
                },
                s,
            ),
        }
    }
}

/// `-h`, `--help` or `help`.
pub open spec fn is_help_request(t: Seq<char>) -> bool {
    t == "-h"@ || t == "--help"@ || t == "help"@
}

/// The meaning of a command line (the program name first).
pub open spec fn parsed_command_line(args: Seq<Seq<char>>) -> Result<CommandsView, CliErrorView> {
    if args.len() < 2 {
        Err(CliErrorView::MissingSubcommand)
    } else {
        let t = args[1];
        let run = |sub: Subcommand, from: int| scan_args(sub, args, from, initial_scan_state());
        if is_help_request(t) {
            Err(CliErrorView::Help)
        } else if t.len() > 0 && t[0] == '-' {
            Err(CliErrorView::UnknownArgument { arg: t })
        } else if t == "start"@ {
            run(Subcommand::Start, 2)
        } else if t == "stop"@ {
            run(Subcommand::Stop, 2)
        } else if t == "clean"@ {
            run(Subcommand::Clean, 2)
        } else if t == "init"@ {
            run(Subcommand::Init, 2)
        } else if t == "status"@ {
            run(Subcommand::Status, 2)
        } else if t == "logs"@ {
            run(Subcommand::Logs, 2)
        } else if t == "version"@ {
            run(Subcommand::Version, 2)
        } else if t == "build"@ {
            if args.len() < 3 {
                Err(CliErrorView::MissingSubcommand)
            } else {
                let u = args[2];
                if is_help_request(u) {
                    Err(CliErrorView::Help)
                } else if u.len() > 0 && u[0] == '-' {
                    Err(CliErrorView::UnknownArgument { arg: u })
                } else if u == "lotus"@ {
                    run(Subcommand::BuildLotus, 3)
                } else if u == "curio"@ {
                    run(Subcommand::BuildCurio, 3)
                } else {
                    Err(CliErrorView::UnknownSubcommand { name: u })
                }
            }
        } else {
            Err(CliErrorView::UnknownSubcommand { name: t })
        }
    }
}

/// The texts of an argument list.
pub open spec fn arg_views(args: Seq<&str>) -> Seq<Seq<char>> {
    args.map_values(|a: &str| a@)
}


// ---------------------------------------------------------------------------
// Laws of the grammar

/// The `--tail` number is only ever recorded together with `--tail` itself.
pub open spec fn tail_recorded(st: ScanState) -> bool {
    st.values.len() == ARG_COUNT && (st.tail is Some ==> st.values[11] is Some)
}

proof fn lemma_read_shorts_keeps_tail(sub: Subcommand, t: Seq<char>, j: int, st: ScanState)
    requires
        tail_recorded(st),
    ensures
        read_shorts(sub, t, j, st) matches Ok(s) ==> tail_recorded(s),
    decreases t.len() - j,
{
    if j < t.len() && t[j] != 'h' {
        if let Some(a) = short_arg(sub, t[j]) {
            if st.values[a as int] is None {
                lemma_read_shorts_keeps_tail(sub, t, j + 1, with_value(st, a, Seq::empty()));
            }
        }
    }
}

proof fn lemma_read_token_keeps_tail(sub: Subcommand, toks: Seq<Seq<char>>, i: int, st: ScanState)
    requires
        tail_recorded(st),
        0 <= i < toks.len(),
    ensures
        read_token(sub, toks, i, st) matches Ok((_, s)) ==> tail_recorded(s),
{
    lemma_read_shorts_keeps_tail(sub, toks[i], 1, st);
}

proof fn lemma_scan_tail_needs_follow(sub: Subcommand, toks: Seq<Seq<char>>, i: int, st: ScanState)
    requires
        tail_recorded(st),
        0 <= i,
    ensures
        scan_args(sub, toks, i, st) matches Ok(CommandsView::Logs { follow, tail }) ==> (tail is Some
            ==> follow),
    decreases toks.len() - i,
{
    if i < toks.len() {
        lemma_read_token_keeps_tail(sub, toks, i, st);
        if let Ok((two, s)) = read_token(sub, toks, i, st) {
            lemma_scan_tail_needs_follow(sub, toks, if two { i + 2 } else { i + 1 }, s);
        }
    }
}

/// `logs --tail` needs `--follow`: no command line is read as a logs command
/// with a tail but without following.
pub proof fn lemma_tail_requires_follow(args: Seq<Seq<char>>)
    ensures
        parsed_command_line(args) matches Ok(CommandsView::Logs { follow, tail }) ==> (tail is Some
            ==> follow),
{
    let st = initial_scan_state();
    assert(tail_recorded(st));
    lemma_scan_tail_needs_follow(Subcommand::Start, args, 2, st);
    lemma_scan_tail_needs_follow(Subcommand::Stop, args, 2, st);
    lemma_scan_tail_needs_follow(Subcommand::Clean, args, 2, st);
    lemma_scan_tail_needs_follow(Subcommand::Init, args, 2, st);
    lemma_scan_tail_needs_follow(Subcommand::Status, args, 2, st);
    lemma_scan_tail_needs_follow(Subcommand::Logs, args, 2, st);
    lemma_scan_tail_needs_follow(Subcommand::Version, args, 2, st);
    lemma_scan_tail_needs_follow(Subcommand::BuildLotus, args, 3, st);
    lemma_scan_tail_needs_follow(Subcommand::BuildCurio, args, 3, st);
}

// ---------------------------------------------------------------------------
// Laws of the named flags

/// Some argument at position `from` or later is exactly `t`.
pub open spec fn has_token(args: Seq<Seq<char>>, from: int, t: Seq<char>) -> bool {
    exists|j: int| from <= j < args.len() && #[trigger] args[j] == t
}

/// The state that reading the tokens of a subcommand from position `i` on
/// ends in.
pub open spec fn scan_final(sub: Subcommand, toks: Seq<Seq<char>>, i: int, st: ScanState) -> Result<
    ScanState,
    CliErrorView,
>
    decreases toks.len() - i,
{
    if i >= toks.len() {
        Ok(st)
    } else {
        match read_token(sub, toks, i, st) {
            Err(e) => Err(e),
            Ok((two, s)) => scan_final(
                sub,
                toks,
                if two {
                    i + 2
                } else {
                    i + 1
                },
                s,
            ),
        }
    }
}

proof fn lemma_scan_args_final(sub: Subcommand, toks: Seq<Seq<char>>, i: int, st: ScanState)
    ensures
        scan_args(sub, toks, i, st) == match scan_final(sub, toks, i, st) {
            Ok(s) => finish_scan(sub, s),
            Err(e) => Err(e),
        },
    decreases toks.len() - i,
{
    if i < toks.len() {
        if let Ok((two, s)) = read_token(sub, toks, i, st) {
            lemma_scan_args_final(sub, toks, if two { i + 2 } else { i + 1 }, s);
        }
    }
}

/// Short flags never touch a named argument that no short flag stands for.
proof fn lemma_read_shorts_keeps(sub: Subcommand, t: Seq<char>, j: int, st: ScanState, f: usize)
    requires
        forall|c: char| short_arg(sub, c) != Some(f),
        st.values.len() == ARG_COUNT,
        f < ARG_COUNT,
        0 <= j,
    ensures
        read_shorts(sub, t, j, st) matches Ok(s) ==> s.values.len() == ARG_COUNT && s.values[f as int]
            == st.values[f as int] && s.tail == st.tail,
    decreases t.len() - j,
{
    if j < t.len() && t[j] != 'h' {
        if let Some(a) = short_arg(sub, t[j]) {
            if st.values[a as int] is None {
                lemma_read_shorts_keeps(sub, t, j + 1, with_value(st, a, Seq::empty()), f);
            }
        }
    }
}

/// The short flags of `logs` from position `j` on: read without error only
/// when nothing is left, or exactly one `f` is left and `--follow` is not
/// given yet, which it then gives.
proof fn lemma_read_shorts_follow(t: Seq<char>, j: int, st: ScanState)
    requires
        1 <= j,
        st.values.len() == ARG_COUNT,
    ensures
        read_shorts(Subcommand::Logs, t, j, st) matches Ok(s) ==> {
            &&& s.values.len() == ARG_COUNT
            &&& j >= t.len() ==> s == st
            &&& j < t.len() ==> j == t.len() - 1 && t[j] == 'f' && st.values[10] is None
                && s.values[10] is Some
        },
    decreases t.len() - j,
{
    if j < t.len() && t[j] == 'f' && st.values[10] is None {
        let s1 = with_value(st, 10, Seq::empty());
        lemma_read_shorts_follow(t, j + 1, s1);
    }
}

/// The name part of a long token `--<name>` with no `=` in the name is that
/// name.
proof fn lemma_long_token_name(t: Seq<char>, n: Seq<char>)
    requires
        t == "--"@ + n,
        forall|j: int| 0 <= j < n.len() ==> n[j] != '=',
    ensures
        t.subrange(2, t.len() as int) == n,
        index_of_from(n, '=', 0) == n.len(),
{
    reveal_strlit("--");
    assert(t.subrange(2, t.len() as int) =~= n);
    lemma_index_of_from(n, '=', 0);
}

/// The other token that gives the flag `f` of name `n`: `-f` for `--follow`
/// of `logs`; a flag that no short flag stands for has only `--<n>`.
pub open spec fn flag_short_form(sub: Subcommand, n: Seq<char>, f: usize, short: Seq<char>) -> bool {
    ||| (forall|c: char| short_arg(sub, c) != Some(f)) && short == "--"@ + n
    ||| sub == Subcommand::Logs && f == 10 && short == "-f"@
}

/// One token read: the flag `f` of name `n` is given by it exactly when the
/// token is `--<n>`, and a token read as an option's value is never `--<n>`.
proof fn lemma_read_token_flag(
    sub: Subcommand,
    n: Seq<char>,
    f: usize,
    short: Seq<char>,
    toks: Seq<Seq<char>>,
    i: int,
    st: ScanState,
)
    requires
        long_arg(sub, n) == Some(f),
        !takes_value(f),
        flag_short_form(sub, n, f, short),
        forall|j: int| 0 <= j < n.len() ==> n[j] != '=',
        n.len() > 0,
        f < ARG_COUNT,
        st.values.len() == ARG_COUNT,
        0 <= i < toks.len(),
    ensures
        read_token(sub, toks, i, st) matches Ok((two, s)) ==> {
            &&& s.values.len() == ARG_COUNT
            &&& (s.values[f as int] is Some <==> (st.values[f as int] is Some || toks[i] == "--"@ + n
                || toks[i] == short))
            &&& two ==> i + 1 < toks.len() && toks[i + 1] != "--"@ + n && toks[i + 1] != short
        },
{
    reveal_strlit("--");
    reveal_strlit("-f");
    let t = toks[i];
    let tn = "--"@ + n;
    assert(tn.len() > 2 && tn[0] == '-' && tn[1] == '-');
    if let Ok((two, s)) = read_token(sub, toks, i, st) {
        if st.escaped || (!is_escape(t) && !is_long(t) && !is_short(t)) {
            assert(!takes_positional(sub));
        } else if is_escape(t) {
            assert(t != tn);
            if t == short {
                assert(t.len() == short.len());
            }
        } else if is_long(t) {
            let body = t.subrange(2, t.len() as int);
            lemma_index_of_from(body, '=', 0);
            let k = index_of_from(body, '=', 0);
            let name = body.subrange(0, k);
            assert(t =~= "--"@ + body);
            if t == tn {
                lemma_long_token_name(t, n);
                assert(name =~= n);
            }
            let a = long_arg(sub, name)->0;
            if a == f {
                assert(name == n);
                assert(k == body.len());
                assert(body =~= name);
            }
            if two {
                let v = toks[i + 1];
                assert(value_like(v));
                if v == tn {
                    assert(v[0] == '-' && v.len() > 1);
                }
                if v == short {
                    assert(v[0] == '-' && v.len() > 1);
                }
            }
            if t == short {
                assert(t[1] == short[1]);
            }
        } else {
            assert(t[1] != tn[1]);
            if sub == Subcommand::Logs && f == 10 {
                lemma_read_shorts_follow(t, 1, st);
                if t.len() == 2 && t[1] == 'f' {
                    assert(t =~= "-f"@);
                }
            } else {
                lemma_read_shorts_keeps(sub, t, 1, st, f);
            }
        }
    }
}

/// Reading the tokens from position `i` on: the flag `f` of name `n` ends up
/// given exactly when it was given before or some token from `i` on is
/// `--<n>`.
proof fn lemma_scan_flag(
    sub: Subcommand,
    n: Seq<char>,
    f: usize,
    short: Seq<char>,
    toks: Seq<Seq<char>>,
    i: int,
    st: ScanState,
)
    requires
        long_arg(sub, n) == Some(f),
        !takes_value(f),
        flag_short_form(sub, n, f, short),
        forall|j: int| 0 <= j < n.len() ==> n[j] != '=',
        n.len() > 0,
        f < ARG_COUNT,
        st.values.len() == ARG_COUNT,
        0 <= i,
    ensures
        scan_final(sub, toks, i, st) matches Ok(s) ==> (s.values[f as int] is Some <==> (
        st.values[f as int] is Some || has_token(toks, i, "--"@ + n) || has_token(toks, i, short))),
    decreases toks.len() - i,
{
    let tn = "--"@ + n;
    if i < toks.len() {
        lemma_read_token_flag(sub, n, f, short, toks, i, st);
        if let Ok((two, s)) = read_token(sub, toks, i, st) {
            let next = if two { i + 2 } else { i + 1 };
            lemma_scan_flag(sub, n, f, short, toks, next, s);
            lemma_has_token_step(toks, i, next, tn);
            lemma_has_token_step(toks, i, next, short);
        }
    }
}

/// A token from `i` on is `t` exactly when token `i` is, or (when `next` is
/// `i + 2`) token `i + 1` is, or one from `next` on is.
proof fn lemma_has_token_step(toks: Seq<Seq<char>>, i: int, next: int, t: Seq<char>)
    requires
        0 <= i < toks.len(),
        next == i + 1 || (next == i + 2 && i + 1 < toks.len()),
    ensures
        has_token(toks, i, t) <==> (toks[i] == t || (next == i + 2 && toks[i + 1] == t) || has_token(
            toks,
            next,
            t,
        )),
{
    if has_token(toks, i, t) {
        let j = choose|j: int| i <= j < toks.len() && #[trigger] toks[j] == t;
        if j >= next {
            assert(has_token(toks, next, t));
        }
    }
    if has_token(toks, next, t) {
        let j = choose|j: int| next <= j < toks.len() && #[trigger] toks[j] == t;
        assert(has_token(toks, i, t));
    }
    if toks[i] == t {
        assert(has_token(toks, i, t));
    }
    if next == i + 2 && toks[i + 1] == t {
        assert(has_token(toks, i, t));
    }
}

/// The flag `f` of name `n`, read over a whole command line for subcommand
/// `sub` starting at `from`.
proof fn lemma_command_flag(
    sub: Subcommand,
    n: Seq<char>,
    f: usize,
    short: Seq<char>,
    args: Seq<Seq<char>>,
    from: int,
)
    requires
        long_arg(sub, n) == Some(f),
        !takes_value(f),
        flag_short_form(sub, n, f, short),
        forall|j: int| 0 <= j < n.len() ==> n[j] != '=',
        n.len() > 0,
        f < ARG_COUNT,
        0 <= from,
    ensures
        scan_args(sub, args, from, initial_scan_state()) == match scan_final(
            sub,
            args,
            from,
            initial_scan_state(),
        ) {
            Ok(s) => finish_scan(sub, s),
            Err(e) => Err(e),
        },
        scan_final(sub, args, from, initial_scan_state()) matches Ok(s) ==> (s.values[f as int] is Some
            <==> (has_token(args, from, "--"@ + n) || has_token(args, from, short))),
{
    lemma_scan_args_final(sub, args, from, initial_scan_state());
    lemma_scan_flag(sub, n, f, short, args, from, initial_scan_state());
}

/// Each kind of command is read only from its own subcommand name.
proof fn lemma_command_kinds(args: Seq<Seq<char>>)
    ensures
        parsed_command_line(args) matches Ok(CommandsView::Start { .. }) ==> args.len() >= 2
            && args[1] == "start"@ && parsed_command_line(args) == scan_args(
            Subcommand::Start,
            args,
            2,
            initial_scan_state(),
        ),
        parsed_command_line(args) matches Ok(CommandsView::Logs { .. }) ==> args.len() >= 2
            && args[1] == "logs"@ && parsed_command_line(args) == scan_args(
            Subcommand::Logs,
            args,
            2,
            initial_scan_state(),
        ),
        parsed_command_line(args) matches Ok(CommandsView::Version { .. }) ==> args.len() >= 2
            && args[1] == "version"@ && parsed_command_line(args) == scan_args(
            Subcommand::Version,
            args,
            2,
            initial_scan_state(),
        ),
        parsed_command_line(args) matches Ok(CommandsView::Clean { .. }) ==> args.len() >= 2
            && args[1] == "clean"@ && parsed_command_line(args) == scan_args(
            Subcommand::Clean,
            args,
            2,
            initial_scan_state(),
        ),
        parsed_command_line(args) matches Ok(CommandsView::Init { .. }) ==> args.len() >= 2
            && args[1] == "init"@ && parsed_command_line(args) == scan_args(
            Subcommand::Init,
            args,
            2,
            initial_scan_state(),
        ),
{
    let st = initial_scan_state();
    lemma_scan_args_final(Subcommand::Start, args, 2, st);
    lemma_scan_args_final(Subcommand::Stop, args, 2, st);
    lemma_scan_args_final(Subcommand::Clean, args, 2, st);
    lemma_scan_args_final(Subcommand::Init, args, 2, st);
    lemma_scan_args_final(Subcommand::Status, args, 2, st);
    lemma_scan_args_final(Subcommand::Logs, args, 2, st);
    lemma_scan_args_final(Subcommand::Version, args, 2, st);
    lemma_scan_args_final(Subcommand::BuildLotus, args, 3, st);
    lemma_scan_args_final(Subcommand::BuildCurio, args, 3, st);
}

/// `clean`: `--all` sets `all` and `--images` sets `images`, each its own
/// field only. Whenever a command line reads as a clean command, `all` is
/// true exactly when `--all` is among its arguments, and `images` exactly
/// when `--images` is.
pub proof fn lemma_clean_flags(args: Seq<Seq<char>>)
    ensures
        parsed_command_line(args) matches Ok(CommandsView::Clean { all, images }) ==> {
            &&& all <==> has_token(args, 2, "--all"@)
            &&& images <==> has_token(args, 2, "--images"@)
        },
{
    reveal_strlit("--");
    reveal_strlit("all");
    reveal_strlit("images");
    reveal_strlit("--all");
    reveal_strlit("--images");
    assert("--"@ + "all"@ =~= "--all"@);
    assert("--"@ + "images"@ =~= "--images"@);
    lemma_command_kinds(args);
    lemma_command_flag(Subcommand::Clean, "all"@, 1, "--all"@, args, 2);
    lemma_command_flag(Subcommand::Clean, "images"@, 2, "--images"@, args, 2);
}

/// Some argument from position `from` on gives the option `--<n>`: it is
/// `--<n>`, or starts with `--<n>=`.
pub open spec fn has_option(args: Seq<Seq<char>>, from: int, n: Seq<char>) -> bool {
    exists|j: int|
        from <= j < args.len() && (#[trigger] args[j] == "--"@ + n || ("--"@ + n + "="@).is_prefix_of(
            args[j],
        ))
}

/// The option `--<n>` is given the value `v` by the arguments from position
/// `from` on: as `--<n> <v>` or as `--<n>=<v>`.
pub open spec fn option_given(args: Seq<Seq<char>>, from: int, n: Seq<char>, v: Seq<char>) -> bool {
    exists|j: int|
        from <= j < args.len() && ((#[trigger] args[j] == "--"@ + n && j + 1 < args.len() && args[j
            + 1] == v) || args[j] == "--"@ + n + "="@ + v)
}

/// What an optional value of a command says of the option `--<n>`: absent
/// when no argument gives the option, else the value that an argument gives.
pub open spec fn option_read(args: Seq<Seq<char>>, n: Seq<char>, o: Option<Seq<char>>) -> bool {
    match o {
        None => !has_option(args, 2, n),
        Some(v) => option_given(args, 2, n, v),
    }
}

/// A long token whose name part is not `n` is neither `--<n>` nor starts
/// with `--<n>=`.
proof fn lemma_other_long_token(t: Seq<char>, n: Seq<char>)
    requires
        t.len() > 2 && t[0] == '-' && t[1] == '-',
        forall|j: int| 0 <= j < n.len() ==> n[j] != '=',
        ({
            let body = t.subrange(2, t.len() as int);
            body.subrange(0, index_of_from(body, '=', 0)) != n
        }),
    ensures
        t != "--"@ + n,
        !("--"@ + n + "="@).is_prefix_of(t),
{
    reveal_strlit("--");
    reveal_strlit("=");
    let body = t.subrange(2, t.len() as int);
    if t == "--"@ + n {
        lemma_long_token_name(t, n);
        assert(body.subrange(0, n.len() as int) =~= n);
    }
    if ("--"@ + n + "="@).is_prefix_of(t) {
        let p = "--"@ + n + "="@;
        assert forall|j: int| 0 <= j < n.len() implies body[j] == n[j] by {
            assert(p[j + 2] == n[j]);
            assert(t[j + 2] == p[j + 2]);
        }
        assert(body[n.len() as int] == p[n.len() as int + 2]);
        lemma_index_of_from_at(body, '=', n.len() as int);
        assert(body.subrange(0, n.len() as int) =~= n);
    }
}

/// The first `c` of `s` is at `k` when `s[k]` is `c` and none comes before.
proof fn lemma_index_of_from_at(s: Seq<char>, c: char, k: int)
    requires
        0 <= k < s.len(),
        s[k] == c,
        forall|j: int| 0 <= j < k ==> s[j] != c,
    ensures
        index_of_from(s, c, 0) == k,
{
    lemma_index_of_from(s, c, 0);
}

/// One token read: how the option `f` of name `n` (which takes a value) is
/// given by it.
proof fn lemma_read_token_option(
    sub: Subcommand,
    n: Seq<char>,
    f: usize,
    toks: Seq<Seq<char>>,
    i: int,
    st: ScanState,
)
    requires
        long_arg(sub, n) == Some(f),
        takes_value(f),
        forall|c: char| short_arg(sub, c) != Some(f),
        forall|j: int| 0 <= j < n.len() ==> n[j] != '=',
        n.len() > 0,
        f < ARG_COUNT,
        st.values.len() == ARG_COUNT,
        0 <= i < toks.len(),
    ensures
        read_token(sub, toks, i, st) matches Ok((two, s)) ==> {
            &&& s.values.len() == ARG_COUNT
            &&& f == 11 ==> s.tail == if toks[i] == "--"@ + n || ("--"@ + n + "="@).is_prefix_of(
                toks[i],
            ) {
                parsed_usize(s.values[f as int]->0)
            } else {
                st.tail
            }
            &&& f == 11 && (toks[i] == "--"@ + n || ("--"@ + n + "="@).is_prefix_of(toks[i]))
                ==> s.tail is Some
            &&& two ==> i + 1 < toks.len() && toks[i + 1] != "--"@ + n && !("--"@ + n
                + "="@).is_prefix_of(toks[i + 1])
            &&& if toks[i] == "--"@ + n || ("--"@ + n + "="@).is_prefix_of(toks[i]) {
                &&& st.values[f as int] is None
                &&& s.values[f as int] matches Some(v) && ((toks[i] == "--"@ + n && two && toks[i + 1]
                    == v) || toks[i] == "--"@ + n + "="@ + v)
            } else {
                s.values[f as int] == st.values[f as int]
            }
        },
{
    reveal_strlit("--");
    reveal_strlit("=");
    let t = toks[i];
    let tn = "--"@ + n;
    let te = "--"@ + n + "="@;
    assert(te.len() > 3 && te[0] == '-' && te[1] == '-');
    if let Ok((two, s)) = read_token(sub, toks, i, st) {
        if two {
            let v = toks[i + 1];
            if v == tn || te.is_prefix_of(v) {
                assert(v[0] == '-' && v.len() > 1);
            }
        }
        if st.escaped || (!is_escape(t) && !is_long(t) && !is_short(t)) {
            assert(!takes_positional(sub));
        } else if is_escape(t) {
            if te.is_prefix_of(t) {
                assert(t.len() >= te.len());
            }
        } else if is_long(t) {
            let body = t.subrange(2, t.len() as int);
            lemma_index_of_from(body, '=', 0);
            let k = index_of_from(body, '=', 0);
            let name = body.subrange(0, k);
            assert(t =~= "--"@ + body);
            if name != n {
                lemma_other_long_token(t, n);
                if name != "help"@ && long_arg(sub, name) is Some {
                    assert(long_arg(sub, name)->0 != f);
                }
            } else {
                assert(long_arg(sub, name) == Some(f));
                if k < body.len() {
                    let v = body.subrange(k + 1, body.len() as int);
                    assert(body =~= n + "="@ + v);
                    assert(t =~= te + v);
                    assert(te.is_prefix_of(t));
                    if t == tn {
                        assert(t.len() < te.len() + v.len() + 1 || t[k + 2] == '=');
                        lemma_long_token_name(t, n);
                    }
                } else {
                    assert(body =~= n);
                    assert(t == tn);
                    if te.is_prefix_of(t) {
                        assert(t.len() >= te.len());
                    }
                }
            }
        } else {
            lemma_read_shorts_keeps(sub, t, 1, st, f);
            if te.is_prefix_of(t) {
                assert(t[1] == te[1]);
            }
            assert(t[1] != tn[1]);
        }
    }
}

/// Reading the tokens from position `i` on, for an option `f` of name `n`
/// not given before: it ends up absent when no token gives it, and with a
/// value that a token gives it otherwise.
proof fn lemma_scan_option(
    sub: Subcommand,
    n: Seq<char>,
    f: usize,
    toks: Seq<Seq<char>>,
    i: int,
    st: ScanState,
)
    requires
        long_arg(sub, n) == Some(f),
        takes_value(f),
        forall|c: char| short_arg(sub, c) != Some(f),
        forall|j: int| 0 <= j < n.len() ==> n[j] != '=',
        n.len() > 0,
        f < ARG_COUNT,
        st.values.len() == ARG_COUNT,
        0 <= i,
    ensures
        scan_final(sub, toks, i, st) matches Ok(s) ==> {
            &&& st.values[f as int] is Some ==> s.values[f as int] == st.values[f as int]
            &&& f == 11 && st.values[f as int] is Some ==> s.tail == st.tail
            &&& f == 11 && st.values[f as int] is None ==> s.tail == match s.values[f as int] {
                None => st.tail,
                Some(v) => parsed_usize(v),
            }
            &&& f == 11 && st.values[f as int] is None && s.values[f as int] is Some ==> s.tail is Some
            &&& st.values[f as int] is None ==> match s.values[f as int] {
                None => !has_option(toks, i, n),
                Some(v) => option_given(toks, i, n, v),
            }
        },
    decreases toks.len() - i,
{
    let tn = "--"@ + n;
    let te = "--"@ + n + "="@;
    if i < toks.len() {
        lemma_read_token_option(sub, n, f, toks, i, st);
        if let Ok((two, s)) = read_token(sub, toks, i, st) {
            let next = if two { i + 2 } else { i + 1 };
            lemma_scan_option(sub, n, f, toks, next, s);
            if let Ok(fin) = scan_final(sub, toks, next, s) {
                if st.values[f as int] is None {
                    if has_option(toks, i, n) {
                        let j = choose|j: int|
                            i <= j < toks.len() && (#[trigger] toks[j] == tn || te.is_prefix_of(toks[j]));
                        if j >= next {
                            assert(has_option(toks, next, n));
                        }
                    }
                    if let Some(v) = fin.values[f as int] {
                        if s.values[f as int] is None {
                            let j = choose|j: int|
                                next <= j < toks.len() && ((#[trigger] toks[j] == tn && j + 1 < toks.len()
                                    && toks[j + 1] == v) || toks[j] == te + v);
                            assert(option_given(toks, i, n, v));
                        } else {
                            assert(option_given(toks, i, n, v));
                        }
                    } else {
                        if has_option(toks, next, n) {
                            let j = choose|j: int|
                                next <= j < toks.len() && (#[trigger] toks[j] == tn || te.is_prefix_of(
                                    toks[j],
                                ));
                            assert(has_option(toks, i, n));
                        }
                    }
                }
            }
        }
    }
}

/// `init`: each source location is read from its own option only. Whenever
/// a command line reads as an init command, `curio` is absent exactly when
/// no argument gives `--curio`, and otherwise holds a value that an argument
/// gives it (`--curio <v>` or `--curio=<v>`); and so for `lotus`,
/// `filecoin_services`, `pdp` and `proof_params_dir` with `--lotus`,
/// `--filecoin-services`, `--pdp` and `--proof-params-dir`.
pub proof fn lemma_init_sources(args: Seq<Seq<char>>)
    ensures
        parsed_command_line(args) matches Ok(
            CommandsView::Init { curio, lotus, filecoin_services, pdp, proof_params_dir, .. },
        ) ==> {
            &&& option_read(args, "curio"@, curio)
            &&& option_read(args, "lotus"@, lotus)
            &&& option_read(args, "filecoin-services"@, filecoin_services)
            &&& option_read(args, "pdp"@, pdp)
            &&& option_read(args, "proof-params-dir"@, proof_params_dir)
        },
{
    reveal_strlit("curio");
    reveal_strlit("lotus");
    reveal_strlit("filecoin-services");
    reveal_strlit("pdp");
    reveal_strlit("proof-params-dir");
    assert("lotus"@[0] != "curio"@[0]);
    lemma_command_kinds(args);
    let st = initial_scan_state();
    lemma_scan_args_final(Subcommand::Init, args, 2, st);
    lemma_scan_option(Subcommand::Init, "curio"@, 3, args, 2, st);
    lemma_scan_option(Subcommand::Init, "lotus"@, 4, args, 2, st);
    lemma_scan_option(Subcommand::Init, "filecoin-services"@, 5, args, 2, st);
    lemma_scan_option(Subcommand::Init, "pdp"@, 6, args, 2, st);
    lemma_scan_option(Subcommand::Init, "proof-params-dir"@, 7, args, 2, st);
}

/// `logs`: whenever a command line reads as a logs command, `tail` is
/// absent exactly when no argument gives `--tail`, and otherwise is the
/// number that a value given to `--tail` denotes.
pub proof fn lemma_logs_tail(args: Seq<Seq<char>>)
    ensures
        parsed_command_line(args) matches Ok(CommandsView::Logs { tail, .. }) ==> match tail {
            None => !has_option(args, 2, "tail"@),
            Some(k) => exists|v: Seq<char>| option_given(args, 2, "tail"@, v) && parsed_usize(v)
                == Some(k),
        },
{
    reveal_strlit("follow");
    reveal_strlit("tail");
    assert("tail"@.len() != "follow"@.len());
    assert(long_arg(Subcommand::Logs, "tail"@) == Some(11usize));
    lemma_command_kinds(args);
    let st = initial_scan_state();
    lemma_scan_args_final(Subcommand::Logs, args, 2, st);
    lemma_scan_option(Subcommand::Logs, "tail"@, 11, args, 2, st);
    if let Ok(s) = scan_final(Subcommand::Logs, args, 2, st) {
        if let Some(v) = s.values[11] {
            assert(option_given(args, 2, "tail"@, v) && parsed_usize(v) == s.tail);
        }
    }
}

/// `start`: whenever a command line reads as a start command, `parallel`
/// is true exactly when `--parallel` is among its arguments.
pub proof fn lemma_start_flags(args: Seq<Seq<char>>)
    ensures
        parsed_command_line(args) matches Ok(CommandsView::Start { parallel }) ==> (parallel
            <==> has_token(args, 2, "--parallel"@)),
{
    reveal_strlit("--");
    reveal_strlit("parallel");
    reveal_strlit("--parallel");
    assert("--"@ + "parallel"@ =~= "--parallel"@);
    lemma_command_kinds(args);
    lemma_command_flag(Subcommand::Start, "parallel"@, 0, "--parallel"@, args, 2);
}

/// `version`: whenever a command line reads as a version command, `notty`
/// is true exactly when `--notty` is among its arguments.
pub proof fn lemma_version_flags(args: Seq<Seq<char>>)
    ensures
        parsed_command_line(args) matches Ok(CommandsView::Version { notty }) ==> (notty
            <==> has_token(args, 2, "--notty"@)),
{
    reveal_strlit("--");
    reveal_strlit("notty");
    reveal_strlit("--notty");
    assert("--"@ + "notty"@ =~= "--notty"@);
    lemma_command_kinds(args);
    lemma_command_flag(Subcommand::Version, "notty"@, 12, "--notty"@, args, 2);
}

/// `logs`: whenever a command line reads as a logs command, `follow` is true
/// exactly when `--follow` or `-f` is among its arguments.
pub proof fn lemma_logs_follow_flag(args: Seq<Seq<char>>)
    ensures
        parsed_command_line(args) matches Ok(CommandsView::Logs { follow, .. }) ==> (follow
            <==> (has_token(args, 2, "--follow"@) || has_token(args, 2, "-f"@))),
{
    reveal_strlit("--");
    reveal_strlit("follow");
    reveal_strlit("--follow");
    assert("--"@ + "follow"@ =~= "--follow"@);
    lemma_command_kinds(args);
    lemma_command_flag(Subcommand::Logs, "follow"@, 10, "-f"@, args, 2);
}

/// A token `--<name>` that names a flag of `sub` (a named argument without a
/// value), with no `=` in it.
pub open spec fn flag_token(sub: Subcommand, t: Seq<char>) -> bool {
    &&& t.len() > 2 && t[0] == '-' && t[1] == '-'
    &&& forall|j: int| 2 <= j < t.len() ==> t[j] != '='
    &&& t.subrange(2, t.len() as int) != "help"@
    &&& long_arg(sub, t.subrange(2, t.len() as int)) matches Some(a) && !takes_value(a)
}

/// The named argument that a flag token stands for.
pub open spec fn flag_index(sub: Subcommand, t: Seq<char>) -> usize {
    long_arg(sub, t.subrange(2, t.len() as int))->0
}

proof fn lemma_flag_index_injective(sub: Subcommand, t: Seq<char>, u: Seq<char>)
    requires
        flag_token(sub, t),
        flag_token(sub, u),
        flag_index(sub, t) == flag_index(sub, u),
    ensures
        t == u,
{
    let x = t.subrange(2, t.len() as int);
    let y = u.subrange(2, u.len() as int);
    assert(x == y);
    assert(t =~= t.subrange(0, 2) + x);
    assert(u =~= u.subrange(0, 2) + y);
    assert(t.subrange(0, 2) =~= u.subrange(0, 2));
}

/// A list of distinct flag tokens, none of them given yet, is read without
/// error, giving each flag and touching no other named argument.
proof fn lemma_scan_flags_accepted(sub: Subcommand, toks: Seq<Seq<char>>, i: int, st: ScanState)
    requires
        0 <= i <= toks.len(),
        st.values.len() == ARG_COUNT,
        !st.escaped,
        forall|j: int| i <= j < toks.len() ==> flag_token(sub, #[trigger] toks[j]),
        forall|j: int, k: int| i <= j < k < toks.len() ==> #[trigger] toks[j] != #[trigger] toks[k],
        forall|j: int| i <= j < toks.len() ==> st.values[flag_index(sub, #[trigger] toks[j]) as int] is None,
    ensures
        scan_final(sub, toks, i, st) matches Ok(s) && s.values.len() == ARG_COUNT && (forall|a: int|
            0 <= a < ARG_COUNT && (forall|j: int| i <= j < toks.len() ==> flag_index(sub, #[trigger] toks[j]) != a)
                ==> #[trigger] s.values[a] == st.values[a]),
        scan_final(sub, toks, i, st) is Ok,
    decreases toks.len() - i,
{
    if i < toks.len() {
        let t = toks[i];
        assert(flag_token(sub, t));
        let body = t.subrange(2, t.len() as int);
        lemma_index_of_from(body, '=', 0);
        let k = index_of_from(body, '=', 0);
        if k < body.len() {
            assert(body[k] == t[k + 2]);
        }
        assert(body.subrange(0, k) =~= body);
        let a = flag_index(sub, t);
        assert(st.values[a as int] is None);
        let s = with_value(st, a, Seq::empty());
        assert(read_token(sub, toks, i, st) == Ok::<(bool, ScanState), CliErrorView>((false, s)));
        assert forall|j: int| i + 1 <= j < toks.len() implies s.values[flag_index(
            sub,
            #[trigger] toks[j],
        ) as int] is None by {
            if flag_index(sub, toks[j]) == a {
                lemma_flag_index_injective(sub, toks[j], t);
            }
        }
        lemma_scan_flags_accepted(sub, toks, i + 1, s);
        let fin = scan_final(sub, toks, i + 1, s)->Ok_0;
        assert forall|b: int|
            0 <= b < ARG_COUNT && (forall|j: int| i <= j < toks.len() ==> flag_index(sub, #[trigger] toks[j]) != b)
            implies #[trigger] fin.values[b] == st.values[b] by {
            assert(flag_index(sub, toks[i]) != b);
            assert(forall|j: int| i + 1 <= j < toks.len() ==> flag_index(sub, #[trigger] toks[j]) != b);
        }
    }
}

/// A subcommand name: the reading of a command line starts at position 2.
proof fn lemma_runs_subcommand(args: Seq<Seq<char>>, name: Seq<char>, sub: Subcommand)
    requires
        args.len() >= 2,
        args[1] == name,
        (name == "clean"@ && sub == Subcommand::Clean) || (name == "init"@ && sub == Subcommand::Init),
    ensures
        parsed_command_line(args) == scan_args(sub, args, 2, initial_scan_state()),
{
    reveal_strlit("-h");
    reveal_strlit("--help");
    reveal_strlit("help");
    reveal_strlit("start");
    reveal_strlit("stop");
    reveal_strlit("clean");
    reveal_strlit("init");
}

/// `clean` followed by `--all` and/or `--images` (each at most once) reads as
/// a clean command whose `all` says whether `--all` was given and whose
/// `images` says whether `--images` was given.
pub proof fn lemma_clean_flags_accepted(args: Seq<Seq<char>>)
    requires
        args.len() >= 2,
        args[1] == "clean"@,
        forall|j: int| 2 <= j < args.len() ==> #[trigger] args[j] == "--all"@ || args[j] == "--images"@,
        forall|j: int, k: int| 2 <= j < k < args.len() ==> #[trigger] args[j] != #[trigger] args[k],
    ensures
        parsed_command_line(args) == Ok::<CommandsView, CliErrorView>(
            CommandsView::Clean {
                all: has_token(args, 2, "--all"@),
                images: has_token(args, 2, "--images"@),
            },
        ),
{
    reveal_strlit("--");
    reveal_strlit("all");
    reveal_strlit("images");
    reveal_strlit("--all");
    reveal_strlit("--images");
    assert("--"@ + "all"@ =~= "--all"@);
    assert("--"@ + "images"@ =~= "--images"@);
    assert("--all"@.subrange(2, 5) =~= "all"@);
    assert("--images"@.subrange(2, 8) =~= "images"@);
    reveal_strlit("help");
    assert(flag_token(Subcommand::Clean, "--all"@));
    assert(flag_token(Subcommand::Clean, "--images"@));
    lemma_runs_subcommand(args, "clean"@, Subcommand::Clean);
    lemma_scan_flags_accepted(Subcommand::Clean, args, 2, initial_scan_state());
    lemma_command_flag(Subcommand::Clean, "all"@, 1, "--all"@, args, 2);
    lemma_command_flag(Subcommand::Clean, "images"@, 2, "--images"@, args, 2);
}

/// `init` followed by `--rand` and/or `--no-docker-build` (each at most
/// once) reads as an init command with no source locations, whose `rand`
/// says whether `--rand` was given and whose `no_docker_build` says whether
/// `--no-docker-build` was given.
pub proof fn lemma_init_flags_accepted(args: Seq<Seq<char>>)
    requires
        args.len() >= 2,
        args[1] == "init"@,
        forall|j: int| 2 <= j < args.len() ==> #[trigger] args[j] == "--rand"@ || args[j]
            == "--no-docker-build"@,
        forall|j: int, k: int| 2 <= j < k < args.len() ==> #[trigger] args[j] != #[trigger] args[k],
    ensures
        parsed_command_line(args) == Ok::<CommandsView, CliErrorView>(
            CommandsView::Init {
                curio: None,
                lotus: None,
                filecoin_services: None,
                pdp: None,
                proof_params_dir: None,
                rand: has_token(args, 2, "--rand"@),
                no_docker_build: has_token(args, 2, "--no-docker-build"@),
            },
        ),
{
    reveal_strlit("--");
    reveal_strlit("curio");
    reveal_strlit("lotus");
    reveal_strlit("filecoin-services");
    reveal_strlit("pdp");
    reveal_strlit("proof-params-dir");
    reveal_strlit("rand");
    reveal_strlit("no-docker-build");
    reveal_strlit("--rand");
    reveal_strlit("--no-docker-build");
    assert("--"@ + "rand"@ =~= "--rand"@);
    assert("--"@ + "no-docker-build"@ =~= "--no-docker-build"@);
    assert("--rand"@.subrange(2, 6) =~= "rand"@);
    assert("--no-docker-build"@.subrange(2, 17) =~= "no-docker-build"@);
    reveal_strlit("help");
    assert("rand"@[0] != "help"@[0]);
    assert(flag_token(Subcommand::Init, "--rand"@));
    assert(flag_token(Subcommand::Init, "--no-docker-build"@));
    lemma_runs_subcommand(args, "init"@, Subcommand::Init);
    lemma_scan_flags_accepted(Subcommand::Init, args, 2, initial_scan_state());
    lemma_command_flag(Subcommand::Init, "rand"@, 8, "--rand"@, args, 2);
    lemma_command_flag(Subcommand::Init, "no-docker-build"@, 9, "--no-docker-build"@, args, 2);
    let s = scan_final(Subcommand::Init, args, 2, initial_scan_state())->Ok_0;
    assert forall|a: int| 3 <= a <= 7 implies #[trigger] s.values[a] is None by {
        assert(forall|j: int| 2 <= j < args.len() ==> flag_index(Subcommand::Init, #[trigger] args[j]) != a);
    }
}

/// `init`: `--rand` sets `rand` and `--no-docker-build` sets
/// `no_docker_build`, each its own field only. Whenever a command line reads
/// as an init command, `rand` is true exactly when `--rand` is among its
/// arguments, and `no_docker_build` exactly when `--no-docker-build` is.
pub proof fn lemma_init_flags(args: Seq<Seq<char>>)
    ensures
        parsed_command_line(args) matches Ok(CommandsView::Init { rand, no_docker_build, .. }) ==> {
            &&& rand <==> has_token(args, 2, "--rand"@)
            &&& no_docker_build <==> has_token(args, 2, "--no-docker-build"@)
        },
{
    reveal_strlit("--");
    reveal_strlit("curio");
    reveal_strlit("lotus");
    reveal_strlit("filecoin-services");
    reveal_strlit("pdp");
    reveal_strlit("proof-params-dir");
    reveal_strlit("rand");
    reveal_strlit("no-docker-build");
    reveal_strlit("--rand");
    reveal_strlit("--no-docker-build");
    assert("--"@ + "rand"@ =~= "--rand"@);
    assert("--"@ + "no-docker-build"@ =~= "--no-docker-build"@);
    lemma_command_kinds(args);
    lemma_command_flag(Subcommand::Init, "rand"@, 8, "--rand"@, args, 2);
    lemma_command_flag(Subcommand::Init, "no-docker-build"@, 9, "--no-docker-build"@, args, 2);
}

// ---------------------------------------------------------------------------
// The reader

/// What has been read of a subcommand's arguments.
struct ArgState {
    values: Vec<Option<String>>,
    tail: Option<usize>,
    positional: Option<String>,
    escaped: bool,
}

impl View for ArgState {
    type V = ScanState;

    closed spec fn view(&self) -> ScanState {
        ScanState {
            values: self.values@.map_values(|o: Option<String>| opt_text(o)),
            tail: self.tail,
            positional: opt_text(self.positional),
            escaped: self.escaped,
        }
    }
}

impl ArgState {
    spec fn well_formed(&self) -> bool {
        self.values@.len() == ARG_COUNT
    }

    fn new() -> (st: ArgState)
        ensures
            st@ == initial_scan_state(),
            st.well_formed(),
    {
        let mut values: Vec<Option<String>> = Vec::new();
        let mut i: usize = 0;
        while i < ARG_COUNT
            invariant
                i <= ARG_COUNT,
                values@.len() == i,
                forall|j: int| 0 <= j < i ==> values@[j] is None,
            decreases ARG_COUNT - i,
        {
            values.push(None);
            i += 1;
        }
        let st = ArgState { values, tail: None, positional: None, escaped: false };
        assert(st@.values =~= initial_scan_state().values);
        st
    }

    fn is_given(&self, a: usize) -> (r: bool)
        requires
            self.well_formed(),
            a < ARG_COUNT,
        ensures
            r == (self@.values[a as int] is Some),
    {
        self.values[a].is_some()
    }

    fn set_value(&mut self, a: usize, v: String)
        requires
            old(self).well_formed(),
            a < ARG_COUNT,
        ensures
            final(self).well_formed(),
            final(self)@ == with_value(old(self)@, a, v@),
    {
        self.values[a] = Some(v);
        assert(self@.values =~= old(self)@.values.update(a as int, Some(v@)));
    }
}

/// Reads the short flags of token `t` from position 1 on.
fn scan_shorts(sub: Subcommand, t: &str, st: &mut ArgState) -> (r: Result<(), CliError>)
    requires
        old(st).well_formed(),
    ensures
        final(st).well_formed(),
        match read_shorts(sub, t@, 1, old(st)@) {
            Ok(s) => r is Ok && final(st)@ == s,
            Err(e) => r matches Err(err) && err@ == e,
        },
{
    let n = t.unicode_len();
    let mut j: usize = 1;
    while j < n
        invariant
            n == t@.len(),
            1 <= j,
            st.well_formed(),
            read_shorts(sub, t@, j as int, st@) == read_shorts(sub, t@, 1, old(st)@),
        decreases n - j,
    {
        let c = t.get_char(j);
        if c == 'h' {
            return Err(CliError::Help);
        }
        let a = if sub == Subcommand::Logs && c == 'f' {
            Some(10usize)
        } else {
            None
        };
        match a {
            None => {
                return Err(CliError::UnknownArgument { arg: String::from_str(t) });
            },
            Some(a) => {
                if st.is_given(a) {
                    return Err(CliError::DuplicateArgument { arg: String::from_str(t) });
                }
                let empty = String::new();
                proof {
                    assert(empty@ =~= Seq::<char>::empty());
                }
                st.set_value(a, empty);
            },
        }
        j += 1;
    }
    Ok(())
}

/// Reads `read_positional`.
fn scan_positional(sub: Subcommand, t: &str, st: &mut ArgState) -> (r: Result<(), CliError>)
    requires
        old(st).well_formed(),
    ensures
        final(st).well_formed(),
        match read_positional(sub, t@, old(st)@) {
            Ok(s) => r is Ok && final(st)@ == s,
            Err(e) => r matches Err(err) && err@ == e && final(st)@ == old(st)@,
        },
{
    if (sub == Subcommand::BuildLotus || sub == Subcommand::BuildCurio) && st.positional.is_none() {
        if t.unicode_len() == 0 {
            return Err(CliError::EmptyValue { arg: String::from_str("[PATH]") });
        }
        st.positional = Some(String::from_str(t));
        Ok(())
    } else {
        Err(CliError::UnexpectedArgument { arg: String::from_str(t) })
    }
}

/// Stores the value `v` of option `a`, given in token `t`.
fn scan_store_value(a: usize, v: &str, t: &str, st: &mut ArgState) -> (r: Result<(), CliError>)
    requires
        old(st).well_formed(),
        a < ARG_COUNT,
    ensures
        final(st).well_formed(),
        match store_value(a, v@, t@, old(st)@) {
            Ok(s) => r is Ok && final(st)@ == s,
            Err(e) => r matches Err(err) && err@ == e,
        },
{
    if a == 11 {
        match parse_usize(v) {
            Some(n) => {
                st.set_value(a, String::from_str(v));
                st.tail = Some(n);
                Ok(())
            },
            None => Err(CliError::InvalidValue { arg: String::from_str(t), value: String::from_str(v) }),
        }
    } else {
        st.set_value(a, String::from_str(v));
        Ok(())
    }
}

/// `t` starts with `-`.
fn starts_with_dash(t: &str) -> (r: bool)
    ensures
        r == (t@.len() > 0 && t@[0] == '-'),
{
    t.unicode_len() > 0 && t.get_char(0) == '-'
}

/// Reads the long argument at position `i`.
fn scan_long(sub: Subcommand, args: &[&str], i: usize, st: &mut ArgState) -> (r: Result<
    bool,
    CliError,
>)
    requires
        old(st).well_formed(),
        i < args@.len(),
        is_long(args@[i as int]@),
    ensures
        final(st).well_formed(),
        match read_long(sub, arg_views(args@), i as int, old(st)@) {
            Ok((two, s)) => r == Ok::<bool, CliError>(two) && final(st)@ == s && (two ==> i + 1
                < args@.len()),
            Err(e) => r matches Err(err) && err@ == e,
        },
{
    let ghost toks = arg_views(args@);
    let t: &str = args[i];
    assert(t@ == toks[i as int]);
    let n = t.unicode_len();
    let body = t.substring_char(2, n);
    let blen = body.unicode_len();
    let k = find_char(body, '=');
    proof {
        lemma_index_of_from(body@, '=', 0);
    }
    let name = body.substring_char(0, k);
    let inline: Option<&str> = if k < blen {
        Some(body.substring_char(k + 1, blen))
    } else {
        None
    };
    if str_eq(name, "help") {
        if inline.is_none() {
            return Err(CliError::Help);
        } else {
            return Err(CliError::UnexpectedValue { arg: String::from_str(t) });
        }
    }
    match find_long_arg(sub, name) {
        None => Err(CliError::UnknownArgument { arg: String::from_str(t) }),
        Some(a) => {
            proof {
                assert(a < ARG_COUNT) by {
                    assert(long_arg(sub, name@) matches Some(x) && x < 13);
                }
            }
            if st.is_given(a) {
                return Err(CliError::DuplicateArgument { arg: String::from_str(t) });
            }
            if !((3 <= a && a <= 7) || a == 11) {
                if inline.is_some() {
                    return Err(CliError::UnexpectedValue { arg: String::from_str(t) });
                }
                let empty = String::new();
                proof {
                    assert(empty@ =~= Seq::<char>::empty());
                }
                st.set_value(a, empty);
                return Ok(false);
            }
            match inline {
                Some(v) => {
                    match scan_store_value(a, v, t, st) {
                        Ok(()) => Ok(false),
                        Err(e) => Err(e),
                    }
                },
                None => {
                    if i + 1 < args.len() {
                        let next: &str = args[i + 1];
                        assert(next@ == toks[i + 1]);
                        let nlen = next.unicode_len();
                        if nlen == 0 || next.get_char(0) != '-' || nlen == 1 {
                            return match scan_store_value(a, next, t, st) {
                                Ok(()) => Ok(true),
                                Err(e) => Err(e),
                            };
                        }
                    }
                    Err(CliError::MissingValue { arg: String::from_str(t) })
                },
            }
        },
    }
}

/// Reads the token at position `i`; `Ok(true)` when the next token was read
/// too.
fn scan_token(sub: Subcommand, args: &[&str], i: usize, st: &mut ArgState) -> (r: Result<
    bool,
    CliError,
>)
    requires
        old(st).well_formed(),
        i < args@.len(),
    ensures
        final(st).well_formed(),
        match read_token(sub, arg_views(args@), i as int, old(st)@) {
            Ok((two, s)) => r == Ok::<bool, CliError>(two) && final(st)@ == s && (two ==> i + 1
                < args@.len()),
            Err(e) => r matches Err(err) && err@ == e,
        },
{
    let ghost toks = arg_views(args@);
    let t: &str = args[i];
    assert(t@ == toks[i as int]);
    let n = t.unicode_len();
    let dash0 = n > 0 && t.get_char(0) == '-';
    let dash1 = n > 1 && t.get_char(1) == '-';
    let escape = n == 2 && dash0 && dash1;
    let long = n > 2 && dash0 && dash1;
    let short = n >= 2 && dash0 && !dash1;
    if st.escaped || (!escape && !long && !short) {
        match scan_positional(sub, t, st) {
            Ok(()) => Ok(false),
            Err(e) => Err(e),
        }
    } else if escape {
        st.escaped = true;
        Ok(false)
    } else if long {
        scan_long(sub, args, i, st)
    } else {
        match scan_shorts(sub, t, st) {
            Ok(()) => Ok(false),
            Err(e) => Err(e),
        }
    }
}

/// Builds the command that the arguments read give.
fn finish(sub: Subcommand, st: ArgState) -> (r: Result<Commands, CliError>)
    requires
        st.well_formed(),
    ensures
        match finish_scan(sub, st@) {
            Ok(c) => r matches Ok(cmd) && cmd@ == c,
            Err(e) => r matches Err(err) && err@ == e,
        },
{
    let given0 = st.is_given(0);
    let given1 = st.is_given(1);
    let given2 = st.is_given(2);
    let given8 = st.is_given(8);
    let given9 = st.is_given(9);
    let given10 = st.is_given(10);
    let given11 = st.is_given(11);
    let given12 = st.is_given(12);
    let ghost sv = st@;
    let ArgState { mut values, tail, positional, escaped: _ } = st;
    match sub {
        Subcommand::Start => Ok(Commands::Start { parallel: given0 }),
        Subcommand::Stop => Ok(Commands::Stop),
        Subcommand::Clean => Ok(Commands::Clean { all: given1, images: given2 }),
        Subcommand::Init => {
            let proof_params_dir = values.remove(7);
            let pdp = values.remove(6);
            let filecoin_services = values.remove(5);
            let lotus = values.remove(4);
            let curio = values.remove(3);
            Ok(
                Commands::Init {
                    curio,
                    lotus,
                    filecoin_services,
                    pdp,
                    proof_params_dir,
                    rand: given8,
                    no_docker_build: given9,
                },
            )
        },
        Subcommand::BuildLotus => Ok(
            Commands::Build { build_command: BuildCommands::Lotus { path: positional } },
        ),
        Subcommand::BuildCurio => Ok(
            Commands::Build { build_command: BuildCommands::Curio { path: positional } },
        ),
        Subcommand::Status => Ok(Commands::Status),
        Subcommand::Logs => {
            if given11 && !given10 {
                let arg = String::from_str("--follow");
                Err(CliError::MissingRequired { arg })
            } else {
                Ok(Commands::Logs { follow: given10, tail })
            }
        },
        Subcommand::Version => Ok(Commands::Version { notty: given12 }),
    }
}

/// Reads the tokens of a subcommand from position `start` on.
fn scan_subcommand(sub: Subcommand, args: &[&str], start: usize) -> (r: Result<Commands, CliError>)
    requires
        start <= args@.len(),
    ensures
        match scan_args(sub, arg_views(args@), start as int, initial_scan_state()) {
            Ok(c) => r matches Ok(cmd) && cmd@ == c,
            Err(e) => r matches Err(err) && err@ == e,
        },
{
    let ghost toks = arg_views(args@);
    let mut st = ArgState::new();
    let mut i = start;
    while i < args.len()
        invariant
            i <= args@.len(),
            toks == arg_views(args@),
            st.well_formed(),
            scan_args(sub, toks, i as int, st@) == scan_args(
                sub,
                toks,
                start as int,
                initial_scan_state(),
            ),
        decreases args@.len() - i,
    {
        match scan_token(sub, args, i, &mut st) {
            Err(e) => {
                return Err(e);
            },
            Ok(two) => {
                if two {
                    i = i + 2;
                } else {
                    i = i + 1;
                }
            },
        }
    }
    finish(sub, st)
}

/// Whether `t` is `-h`, `--help` or `help`.
fn help_request(t: &str) -> (r: bool)
    ensures
        r == is_help_request(t@),
{
    str_eq(t, "-h") || str_eq(t, "--help") || str_eq(t, "help")
}

/// Reads a command line (the program name first) by the tool's grammar.
pub fn parse_arguments(args: &[&str]) -> (r: Result<Cli, CliError>)
    ensures
        parse_result_view(r) == parsed_command_line(arg_views(args@)),
{
    let ghost toks = arg_views(args@);
    if args.len() < 2 {
        return Err(CliError::MissingSubcommand);
    }
    let t: &str = args[1];
    assert(t@ == toks[1]);
    let command = if help_request(t) {
        Err(CliError::Help)
    } else if starts_with_dash(t) {
        Err(CliError::UnknownArgument { arg: String::from_str(t) })
    } else if str_eq(t, "start") {
        scan_subcommand(Subcommand::Start, args, 2)
    } else if str_eq(t, "stop") {
        scan_subcommand(Subcommand::Stop, args, 2)
    } else if str_eq(t, "clean") {
        scan_subcommand(Subcommand::Clean, args, 2)
    } else if str_eq(t, "init") {
        scan_subcommand(Subcommand::Init, args, 2)
    } else if str_eq(t, "status") {
        scan_subcommand(Subcommand::Status, args, 2)
    } else if str_eq(t, "logs") {
        scan_subcommand(Subcommand::Logs, args, 2)
    } else if str_eq(t, "version") {
        scan_subcommand(Subcommand::Version, args, 2)
    } else if str_eq(t, "build") {
        if args.len() < 3 {
            Err(CliError::MissingSubcommand)
        } else {
            let u: &str = args[2];
            assert(u@ == toks[2]);
            if help_request(u) {
                Err(CliError::Help)
            } else if starts_with_dash(u) {
                Err(CliError::UnknownArgument { arg: String::from_str(u) })
            } else if str_eq(u, "lotus") {
                scan_subcommand(Subcommand::BuildLotus, args, 3)
            } else if str_eq(u, "curio") {
                scan_subcommand(Subcommand::BuildCurio, args, 3)
            } else {
                Err(CliError::UnknownSubcommand { name: String::from_str(u) })
            }
        }
    } else {
        Err(CliError::UnknownSubcommand { name: String::from_str(t) })
    };
    match command {
        Ok(command) => Ok(Cli { command }),
        Err(e) => Err(e),
    }
}

impl Cli {
    /// Reads a command line (the program name first) by the tool's grammar.
    pub fn try_parse_from<const N: usize>(args: [&str; N]) -> (r: Result<Cli, CliError>)
        ensures
            parse_result_view(r) == parsed_command_line(arg_views(args@)),
    {
        parse_arguments(args.as_slice())
    }
}

} // verus!
