//! The commands of the tool and the arguments that they hand to the
//! compiler front end.

use vstd::prelude::*;
use vstd::string::StringExecFns;

verus! {

/// What every command takes: the sources, the directories searched for
/// headers, and arguments handed on as they are.
#[derive(Debug, PartialEq, Eq)]
pub struct ClangArgs {
    pub source_files: Vec<String>,
    pub include_dirs: Vec<String>,
    pub extra: Vec<String>,
}

/// The commands.
#[derive(Debug, PartialEq, Eq)]
pub enum CliCmd {
    /// Print the directives of each source.
    ScanDump { clang_args: ClangArgs },
    /// Write the hooks of each source below `payload_srcdir`, or below the
    /// working directory where none is given.
    WriteHooks { clang_args: ClangArgs, payload_srcdir: Option<String> },
}

impl CliCmd {
    /// The arguments of the command, whichever it is.
    pub open spec fn spec_clang_args(&self) -> ClangArgs {
        match *self {
            CliCmd::ScanDump { clang_args } => clang_args,
            CliCmd::WriteHooks { clang_args, .. } => clang_args,
        }
    }

    /// The arguments of the command, whichever it is.
    pub fn clang_args(&self) -> (args: &ClangArgs)
        ensures
            *args == self.spec_clang_args(),
    {
        match self {
            CliCmd::ScanDump { clang_args } => clang_args,
            CliCmd::WriteHooks { clang_args, .. } => clang_args,
        }
    }
}

/// The arguments for the front end: `-I` and the directory for each
/// directory, in order, then the extra arguments, in order.
pub open spec fn spec_compiler_arguments(include_dirs: Seq<Seq<char>>, extra: Seq<Seq<char>>) -> Seq<
    Seq<char>,
> {
    Seq::new(include_dirs.len(), |i: int| "-I"@ + include_dirs[i]) + extra
}

/// The arguments for the front end: `-I` and the directory for each
/// directory, in order, then the extra arguments, in order.
pub fn compiler_arguments(args: &ClangArgs) -> (arguments: Vec<String>)
    ensures
        arguments.deep_view() == spec_compiler_arguments(
            args.include_dirs.deep_view(),
            args.extra.deep_view(),
        ),
{
    let mut arguments: Vec<String> = Vec::new();
    let ghost dirs = args.include_dirs.deep_view();
    let ghost extra = args.extra.deep_view();
    let mut i: usize = 0;
    while i < args.include_dirs.len()
        invariant
            i <= args.include_dirs.len(),
            dirs == args.include_dirs.deep_view(),
            arguments.len() == i,
            forall|k: int| 0 <= k < i ==> (#[trigger] arguments@[k])@ == "-I"@ + dirs[k],
        decreases args.include_dirs.len() - i,
    {
        let mut argument = String::new();
        argument.append("-I");
        argument.append(args.include_dirs[i].as_str());
        assert(argument@ =~= "-I"@ + dirs[i as int]);
        arguments.push(argument);
        i += 1;
    }
    let n = i;
    let mut j: usize = 0;
    while j < args.extra.len()
        invariant
            j <= args.extra.len(),
            n == args.include_dirs.len(),
            dirs == args.include_dirs.deep_view(),
            extra == args.extra.deep_view(),
            arguments.len() == n + j,
            forall|k: int| 0 <= k < n ==> (#[trigger] arguments@[k])@ == "-I"@ + dirs[k],
            forall|k: int| n <= k < n + j ==> (#[trigger] arguments@[k])@ == extra[k - n],
        decreases args.extra.len() - j,
    {
        arguments.push(args.extra[j].clone());
        j += 1;
    }
    assert(arguments.deep_view() =~= spec_compiler_arguments(dirs, extra));
    arguments
}

} // verus!
