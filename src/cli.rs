//! The command's configuration: the flags it was given and the environment it runs in, which
//! policies, walker and remover they select, and the checks made before any path is walked.
use vstd::prelude::*;
use vstd::string::StringExecFns;
use crate::rm::Remover;
use crate::transform::Transformer;

verus! {

/// The flags and paths the command was given.
#[derive(Clone, Debug)]
pub struct Args {
    /// Ignore nonexistent files and directories.
    pub blind: bool,
    /// Remove empty directories.
    pub dir: bool,
    /// Remove without prompt.
    pub force: bool,
    /// Prompt to remove.
    pub interactive: bool,
    /// Do not treat the file system root specially.
    pub no_preserve_root: bool,
    /// Do not report successes (only with `force`).
    pub quiet: bool,
    /// Remove directories and their contents.
    pub recursive: bool,
    /// Move to the trash instead of removing.
    pub trash: bool,
    /// Explain what is being done.
    pub verbose: bool,
    /// The paths to remove.
    pub paths: Vec<String>,
}

/// A flag of the command.
#[derive(Clone, Copy, Debug, PartialEq, Eq, Structural)]
pub enum Flag {
    /// `--blind`.
    Blind,
    /// `--dir`.
    Dir,
    /// `--force`.
    Force,
    /// `--interactive`.
    Interactive,
    /// `--no-preserve-root`.
    NoPreserveRoot,
    /// `--quiet`.
    Quiet,
    /// `--recursive`.
    Recursive,
    /// `--trash`.
    Trash,
    /// `--verbose`.
    Verbose,
}

/// The long name of a flag, without its dashes.
pub open spec fn flag_name(f: Flag) -> Seq<char> {
    match f {
        Flag::Blind => "blind"@,
        Flag::Dir => "dir"@,
        Flag::Force => "force"@,
        Flag::Interactive => "interactive"@,
        Flag::NoPreserveRoot => "no-preserve-root"@,
        Flag::Quiet => "quiet"@,
        Flag::Recursive => "recursive"@,
        Flag::Trash => "trash"@,
        Flag::Verbose => "verbose"@,
    }
}

impl Flag {
    /// The long name of the flag, without its dashes.
    pub fn name(&self) -> (r: &'static str)
        ensures
            r@ == flag_name(*self),
    {
        match self {
            Flag::Blind => "blind",
            Flag::Dir => "dir",
            Flag::Force => "force",
            Flag::Interactive => "interactive",
            Flag::NoPreserveRoot => "no-preserve-root",
            Flag::Quiet => "quiet",
            Flag::Recursive => "recursive",
            Flag::Trash => "trash",
            Flag::Verbose => "verbose",
        }
    }
}

/// A usage error: the command was given flags it cannot work with.
#[derive(Clone, Copy, Debug, PartialEq, Eq, Structural)]
pub enum UsageError {
    /// Two flags that exclude each other were both given.
    Conflict(Flag, Flag),
    /// A flag that compatibility mode does not support was given without `force`.
    NotSupported(Flag),
}

/// The message that reports a usage error.
pub open spec fn usage_message(e: UsageError) -> Seq<char> {
    match e {
        UsageError::Conflict(a, b) => "the argument '--"@ + flag_name(a)
            + "' cannot be used with '--"@ + flag_name(b) + "'"@,
        UsageError::NotSupported(f) => "option --"@ + flag_name(f) + " not supported in GNU mode"@,
    }
}

impl UsageError {
    /// The message that reports the error.
    pub fn message(&self) -> (r: String)
        ensures
            r@ == usage_message(*self),
    {
        match self {
            UsageError::Conflict(a, b) => {
                let mut m = String::from_str("the argument '--");
                m.append(a.name());
                m.append("' cannot be used with '--");
                m.append(b.name());
                m.append("'");
                m
            },
            UsageError::NotSupported(f) => {
                let mut m = String::from_str("option --");
                m.append(f.name());
                m.append(" not supported in GNU mode");
                m
            },
        }
    }

    /// The exit code for a usage error.
    pub fn exit_code(&self) -> (r: u8)
        ensures
            r == 2,
    {
        2
    }
}

/// The first pair of flags given that exclude each other: `dir` and `recursive`, `force` and
/// `interactive`, `quiet` and `verbose`, checked in that order.
pub open spec fn conflict_of(a: &Args) -> Option<UsageError> {
    if a.dir && a.recursive {
        Some(UsageError::Conflict(Flag::Dir, Flag::Recursive))
    } else if a.force && a.interactive {
        Some(UsageError::Conflict(Flag::Force, Flag::Interactive))
    } else if a.quiet && a.verbose {
        Some(UsageError::Conflict(Flag::Quiet, Flag::Verbose))
    } else {
        None
    }
}

/// Directory mode and recursive mode exclude each other: together they are refused, whatever
/// else was given, and in whatever environment.
pub proof fn dir_mode_excludes_recursive(a: Args, vars: Vars)
    requires
        a.dir,
        a.recursive,
    ensures
        conflict_of(&a) == Some(UsageError::Conflict(Flag::Dir, Flag::Recursive)),
        parse_args_spec(a, vars) == Err::<Args, UsageError>(UsageError::Conflict(Flag::Dir, Flag::Recursive)),
{
}

/// Checks that no two flags that exclude each other were given.
pub fn check_conflicts(args: &Args) -> (r: Result<(), UsageError>)
    ensures
        match conflict_of(args) {
            Some(e) => r == Err::<(), UsageError>(e),
            None => r is Ok,
        },
{
    if args.dir && args.recursive {
        Err(UsageError::Conflict(Flag::Dir, Flag::Recursive))
    } else if args.force && args.interactive {
        Err(UsageError::Conflict(Flag::Force, Flag::Interactive))
    } else if args.quiet && args.verbose {
        Err(UsageError::Conflict(Flag::Quiet, Flag::Verbose))
    } else {
        Ok(())
    }
}

/// The configuration read from the environment.
#[derive(Clone, Copy, Debug, PartialEq, Eq, Structural)]
pub struct Vars {
    /// Whether debug mode (verbose output) was asked for.
    pub debug: bool,
    /// Whether compatibility with the GNU version of `rm(1)` was asked for.
    pub gnu_mode: bool,
}

/// The name of the environment variable that turns verbose output on.
pub open spec fn debug_var() -> Seq<char> {
    "DEBUG"@
}

/// The name of the environment variable that turns compatibility mode on.
pub open spec fn gnu_mode_var() -> Seq<char> {
    "RUST_RM_GNU_MODE"@
}

/// Whether a variable of the given name is among the environment's (name, value) pairs.
pub open spec fn has_var(vars: Seq<(String, String)>, name: Seq<char>) -> bool {
    exists|i: int| 0 <= i < vars.len() && (#[trigger] vars[i]).0@ == name
}

/// Reads the configuration from the environment's (name, value) pairs: a variable counts as
/// set whatever its value.
pub fn parse_vars(vars: &Vec<(String, String)>) -> (r: Vars)
    ensures
        r.debug == has_var(vars@, debug_var()),
        r.gnu_mode == has_var(vars@, gnu_mode_var()),
{
    let debug_name = "DEBUG".to_owned();
    let gnu_name = "RUST_RM_GNU_MODE".to_owned();
    let mut debug = false;
    let mut gnu_mode = false;
    let mut i: usize = 0;
    while i < vars.len()
        invariant
            i <= vars@.len(),
            debug_name@ == debug_var(),
            gnu_name@ == gnu_mode_var(),
            debug == exists|j: int| 0 <= j < i && (#[trigger] vars@[j]).0@ == debug_var(),
            gnu_mode == exists|j: int| 0 <= j < i && (#[trigger] vars@[j]).0@ == gnu_mode_var(),
        decreases vars@.len() - i,
    {
        if vars[i].0 == debug_name {
            debug = true;
        }
        if vars[i].0 == gnu_name {
            gnu_mode = true;
        }
        i = i + 1;
    }
    Vars { debug, gnu_mode }
}

/// The flags after compatibility mode: without `force`, `blind`, `quiet` and `trash` are not
/// supported; then `blind` follows `force`, `force` is on unless `interactive` is, output is
/// always quiet and the trash is never used.
pub open spec fn gnu_mode_spec(a: Args) -> Result<Args, UsageError> {
    if !a.force && a.blind {
        Err(UsageError::NotSupported(Flag::Blind))
    } else if !a.force && a.quiet {
        Err(UsageError::NotSupported(Flag::Quiet))
    } else if !a.force && a.trash {
        Err(UsageError::NotSupported(Flag::Trash))
    } else {
        Ok(Args { blind: a.force, force: !a.interactive, quiet: true, trash: false, ..a })
    }
}

/// Adjusts the flags for compatibility with the GNU version of `rm(1)`.
pub fn parse_args_gnu_mode(args: Args) -> (r: Result<Args, UsageError>)
    ensures
        r == gnu_mode_spec(args),
{
    if !args.force {
        if args.blind {
            return Err(UsageError::NotSupported(Flag::Blind));
        }
        if args.quiet {
            return Err(UsageError::NotSupported(Flag::Quiet));
        }
        if args.trash {
            return Err(UsageError::NotSupported(Flag::Trash));
        }
    }
    let force = !args.interactive;
    let blind = args.force;
    Ok(Args { blind, force, quiet: true, trash: false, ..args })
}

/// The flags the command works with: conflicts are refused first, then compatibility mode
/// applies where the environment asks for it, and debug mode turns verbose output on.
pub open spec fn parse_args_spec(a: Args, vars: Vars) -> Result<Args, UsageError> {
    match conflict_of(&a) {
        Some(e) => Err(e),
        None => {
            let adjusted = if vars.gnu_mode { gnu_mode_spec(a) } else { Ok(a) };
            match adjusted {
                Err(e) => Err(e),
                Ok(b) => if vars.debug { Ok(Args { verbose: true, ..b }) } else { Ok(b) },
            }
        },
    }
}

/// Turns the flags as given into the flags the command works with (see [`parse_args_spec`]).
pub fn parse_args(args: Args, vars: Vars) -> (r: Result<Args, UsageError>)
    ensures
        r == parse_args_spec(args, vars),
{
    match check_conflicts(&args) {
        Err(e) => Err(e),
        Ok(()) => {
            let adjusted = if vars.gnu_mode {
                parse_args_gnu_mode(args)
            } else {
                Ok(args)
            };
            match adjusted {
                Err(e) => Err(e),
                Ok(b) => if vars.debug {
                    Ok(Args { verbose: true, ..b })
                } else {
                    Ok(b)
                },
            }
        },
    }
}

/// How much the command reports.
#[derive(Clone, Copy, Debug, PartialEq, Eq, Structural)]
pub enum Verbosity {
    /// Successes and errors.
    Normal,
    /// Errors only.
    Quiet,
    /// What is being done, successes and errors.
    Verbose,
}

/// Whether nothing is removed: neither `force` nor `interactive` was given.
pub open spec fn dry_run_spec(a: &Args) -> bool {
    !a.force && !a.interactive
}

/// Whether the command removes nothing and only reports what it would do.
pub fn is_dry_run(args: &Args) -> (r: bool)
    ensures
        r == dry_run_spec(args),
{
    !args.force && !args.interactive
}

/// How much the command reports: quiet only where it removes, else verbose where asked.
pub fn verbosity(args: &Args) -> (r: Verbosity)
    ensures
        r == if args.quiet && !dry_run_spec(args) {
            Verbosity::Quiet
        } else if args.verbose {
            Verbosity::Verbose
        } else {
            Verbosity::Normal
        },
{
    if args.quiet && !is_dry_run(args) {
        Verbosity::Quiet
    } else if args.verbose {
        Verbosity::Verbose
    } else {
        Verbosity::Normal
    }
}

/// The policies, in the order they apply: the current and parent directory are refused; the
/// root is refused unless `no_preserve_root`; missing paths are skipped with `blind`, else
/// given a tip; directories are refused, or only filled ones with `dir`, or none with
/// `recursive`; the user is asked with `interactive`.
pub open spec fn transformers_spec(a: &Args) -> Seq<Transformer> {
    seq![
        Transformer::DisallowCurrentAndParentDir,
        if a.no_preserve_root { Transformer::Identity } else { Transformer::DisallowRoot },
        if a.blind { Transformer::SkipNotFound } else { Transformer::TipNotFound },
        if a.recursive {
            Transformer::Identity
        } else if a.dir {
            Transformer::DisallowFilledDirs
        } else {
            Transformer::DisallowAllDirs
        },
        if a.interactive { Transformer::Interactive } else { Transformer::Identity },
    ]
}

/// Assembles the policies for the given flags.
pub fn transformers_for(args: &Args) -> (r: Vec<Transformer>)
    ensures
        r@ == transformers_spec(args),
{
    let mut v: Vec<Transformer> = Vec::new();
    v.push(Transformer::DisallowCurrentAndParentDir);
    v.push(if args.no_preserve_root { Transformer::Identity } else { Transformer::DisallowRoot });
    v.push(if args.blind { Transformer::SkipNotFound } else { Transformer::TipNotFound });
    v.push(
        if args.recursive {
            Transformer::Identity
        } else if args.dir {
            Transformer::DisallowFilledDirs
        } else {
            Transformer::DisallowAllDirs
        },
    );
    v.push(if args.interactive { Transformer::Interactive } else { Transformer::Identity });
    proof {
        assert(v@ =~= transformers_spec(args));
    }
    v
}

/// The remover for the given flags: a dry run only reports, and `trash` moves to the trash
/// instead of removing.
pub open spec fn remover_spec(a: &Args) -> Remover {
    if dry_run_spec(a) {
        if a.trash { Remover::ShowDispose } else { Remover::ShowRemove }
    } else {
        if a.trash { Remover::Dispose } else { Remover::Remove }
    }
}

/// Selects the remover for the given flags.
pub fn remover_for(args: &Args) -> (r: Remover)
    ensures
        r == remover_spec(args),
{
    match (is_dry_run(args), args.trash) {
        (false, false) => Remover::Remove,
        (false, true) => Remover::Dispose,
        (true, false) => Remover::ShowRemove,
        (true, true) => Remover::ShowDispose,
    }
}

/// Whether the walk descends into directories: with `recursive`, unless whole directories go
/// to the trash.
pub fn walks_recursively(args: &Args) -> (r: bool)
    ensures
        r == (args.recursive && !args.trash),
{
    args.recursive && !args.trash
}

} // verus!
