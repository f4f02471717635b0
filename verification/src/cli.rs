//! The command line: flags are taken out of the argument list, and what is
//! left decides what the program does.
use vstd::prelude::*;

verus! {

/// The first position from `from` on at which `args` holds `name`.
pub open spec fn position_from(args: Seq<String>, name: Seq<char>, from: int) -> Option<int>
    decreases args.len() - from,
{
    if from < 0 || from >= args.len() {
        None
    } else if args[from]@ == name {
        Some(from)
    } else {
        position_from(args, name, from + 1)
    }
}

/// The first position at which `args` holds `name`.
pub open spec fn position_of(args: Seq<String>, name: Seq<char>) -> Option<int> {
    position_from(args, name, 0)
}

/// `args` without the first argument equal to `name`; `args` itself if
/// there is none.
pub open spec fn without_arg(args: Seq<String>, name: Seq<char>) -> Seq<String> {
    match position_of(args, name) {
        Some(index) => args.remove(index),
        None => args,
    }
}

/// What [`position_from`] gives is the first position from `from` on that
/// holds `name`; it gives none exactly when no position does.
pub proof fn lemma_position_from(args: Seq<String>, name: Seq<char>, from: int)
    requires
        0 <= from,
    ensures
        match position_from(args, name, from) {
            Some(index) => {
                &&& from <= index < args.len()
                &&& args[index]@ == name
                &&& forall|j: int| from <= j < index ==> (#[trigger] args[j])@ != name
            },
            None => forall|j: int| from <= j < args.len() ==> (#[trigger] args[j])@ != name,
        },
    decreases args.len() - from,
{
    if from < args.len() && args[from]@ != name {
        lemma_position_from(args, name, from + 1);
    }
}

/// Looks for the flag `arg_name` and takes it out of `args`.
///
/// Returns whether the flag was there. If it was, its first occurrence is
/// removed and the other arguments keep their order; if not, `args` is left
/// as it was.
pub fn check_arg(args: &mut Vec<String>, arg_name: &str) -> (found: bool)
    ensures
        found == (position_of(old(args)@, arg_name@) is Some),
        final(args)@ == without_arg(old(args)@, arg_name@),
        found ==> final(args)@.len() == old(args)@.len() - 1,
{
    let wanted: String = arg_name.to_owned();
    let n = args.len();
    let mut i: usize = 0;
    while i < n
        invariant
            i <= n,
            n == args@.len(),
            args@ == old(args)@,
            wanted@ == arg_name@,
            position_of(args@, arg_name@) == position_from(args@, arg_name@, i as int),
        decreases n - i,
    {
        if args[i] == wanted {
            args.remove(i);
            return true;
        }
        i += 1;
    }
    false
}

/// What the command line asks for.
#[derive(Debug, PartialEq, Eq)]
pub enum Invocation {
    /// Print the usage text.
    Help,
    /// No image directory was given: report that and print the usage text.
    MissingDirectory,
    /// Serve the images of `directory`, looking into its subdirectories
    /// too if `recursive`.
    Serve { directory: String, recursive: bool },
}

/// The arguments without the flags `-h` and `-r`, each taken out once.
pub open spec fn positional_spec(args: Seq<String>) -> Seq<String> {
    without_arg(without_arg(args, "-h"@), "-r"@)
}

/// What the arguments ask for: help if `-h` is among them; else, with the
/// flags taken out, the image directory is the argument behind the program
/// name, and it is missing if there is none.
pub open spec fn invocation_spec(args: Seq<String>) -> Invocation {
    let rest = positional_spec(args);
    if position_of(args, "-h"@) is Some {
        Invocation::Help
    } else if rest.len() < 2 {
        Invocation::MissingDirectory
    } else {
        Invocation::Serve {
            directory: rest[1],
            recursive: position_of(without_arg(args, "-h"@), "-r"@) is Some,
        }
    }
}

/// Reads the command line. The flags `-h` and `-r` are taken out of `args`;
/// the program name and the positional arguments stay.
pub fn parse_args(args: &mut Vec<String>) -> (invocation: Invocation)
    ensures
        invocation == invocation_spec(old(args)@),
        final(args)@ == positional_spec(old(args)@),
{
    let print_help = check_arg(args, "-h");
    let recursive = check_arg(args, "-r");
    if print_help {
        Invocation::Help
    } else if args.len() < 2 {
        Invocation::MissingDirectory
    } else {
        Invocation::Serve { directory: args[1].clone(), recursive }
    }
}

} // verus!
