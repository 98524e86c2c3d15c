use vstd::prelude::*;

verus! {

/// What the command line asks for.
#[derive(Debug, PartialEq, Eq)]
pub enum StartupAction {
    PrintVersion,
    PrintHelp { program_name: String },
    Run { initial_file: Option<String> },
}

/// The final component of `path` as `std::path::Path::file_name` sees it, if any.
pub uninterp spec fn path_file_name(path: Seq<char>) -> Option<Seq<char>>;

/// `Path::new(path).file_name()`, converted to a `String` (lossless for text that
/// came from a `&str`). Which component that is, is named by `path_file_name`, a
/// function of the text alone.
#[verifier::external_body]
fn file_name_of(path: &str) -> (r: Option<String>)
    ensures
        r is Some <==> path_file_name(path@) is Some,
        r matches Some(name) ==> path_file_name(path@) == Some(name@),
{
    std::path::Path::new(path).file_name().map(|name| name.to_string_lossy().into_owned())
}

/// Name of the program when nothing better is known.
pub open spec fn package_name() -> Seq<char> {
    seq!['b', 'a', 'r', 'y', 'o', 'n']
}

/// The program name shown in help: the file name of the program path, or the package
/// name when the path has none.
pub open spec fn spec_executable_name(program_arg: Seq<char>) -> Seq<char> {
    match path_file_name(program_arg) {
        Some(name) => name,
        None => package_name(),
    }
}

/// The program name shown in help: the file name of the program path, or the package
/// name when the path has none.
pub fn executable_name(program_arg: &str) -> (r: String)
    ensures
        r@ == spec_executable_name(program_arg@),
{
    match file_name_of(program_arg) {
        Some(name) => name,
        None => {
            let r = String::from_str("baryon");
            proof {
                reveal_strlit("baryon");
            }
            r
        },
    }
}

/// What the arguments from index `i` on decide, flags still being read while
/// `parse_flags` holds: `Some(None)` to print the version, `Some(Some(None))` for help,
/// and otherwise the index of the file to open, if any.
pub open spec fn startup_scan(args: Seq<Seq<char>>, i: int, parse_flags: bool) -> StartupOutcome
    decreases args.len() - i,
{
    if i < 0 || i >= args.len() {
        StartupOutcome::Run(None)
    } else if !parse_flags {
        StartupOutcome::Run(Some(i as usize))
    } else if args[i] == seq!['-', '-', 'v', 'e', 'r', 's', 'i', 'o', 'n'] || args[i] == seq![
        '-',
        'v',
    ] {
        StartupOutcome::Version
    } else if args[i] == seq!['-', '-', 'h', 'e', 'l', 'p'] || args[i] == seq!['-', 'h'] {
        StartupOutcome::Help
    } else if args[i] == seq!['-', '-'] {
        startup_scan(args, i + 1, false)
    } else if args[i].len() > 0 && args[i][0] == '-' {
        startup_scan(args, i + 1, true)
    } else {
        StartupOutcome::Run(Some(i as usize))
    }
}

/// What the command line decides, with the file given by its index among the arguments.
#[derive(Debug, Clone, Copy, PartialEq, Eq, Structural)]
pub enum StartupOutcome {
    Version,
    Help,
    Run(Option<usize>),
}

/// The texts of the arguments.
pub open spec fn arg_texts(args: Seq<String>) -> Seq<Seq<char>> {
    args.map_values(|s: String| s@)
}

/// Reads the command line: the first argument is the program path; then `--version`/`-v`
/// and `--help`/`-h` win as soon as they are met, other dash-prefixed arguments are
/// skipped, `--` ends the flags, and the first other argument is the file to open.
pub fn parse_startup_args(args: Vec<String>) -> (r: StartupAction)
    ensures
        ({
            let texts = arg_texts(args@);
            let program = if args@.len() == 0 {
                package_name()
            } else {
                spec_executable_name(texts[0])
            };
            match startup_scan(texts, 1, true) {
                StartupOutcome::Version => r == StartupAction::PrintVersion,
                StartupOutcome::Help => r matches StartupAction::PrintHelp { program_name }
                    && program_name@ == program,
                StartupOutcome::Run(None) => r matches StartupAction::Run { initial_file }
                    && initial_file is None,
                StartupOutcome::Run(Some(i)) => r matches StartupAction::Run { initial_file }
                    && initial_file matches Some(f) && f@ == texts[i as int],
            }
        }),
{
    let ghost texts = arg_texts(args@);
    let version_long = String::from_str("--version");
    let version_short = String::from_str("-v");
    let help_long = String::from_str("--help");
    let help_short = String::from_str("-h");
    let end_of_flags = String::from_str("--");
    proof {
        reveal_strlit("--version");
        reveal_strlit("-v");
        reveal_strlit("--help");
        reveal_strlit("-h");
        reveal_strlit("--");
        assert(version_long@ =~= seq!['-', '-', 'v', 'e', 'r', 's', 'i', 'o', 'n']);
        assert(version_short@ =~= seq!['-', 'v']);
        assert(help_long@ =~= seq!['-', '-', 'h', 'e', 'l', 'p']);
        assert(help_short@ =~= seq!['-', 'h']);
        assert(end_of_flags@ =~= seq!['-', '-']);
    }
    let program_name = if args.len() == 0 {
        let r = String::from_str("baryon");
        proof {
            reveal_strlit("baryon");
        }
        r
    } else {
        executable_name(args[0].as_str())
    };
    let mut parse_flags = true;
    let mut i: usize = 1;
    while i < args.len()
        invariant
            1 <= i,
            texts == arg_texts(args@),
            args@.len() > 0 ==> program_name@ == spec_executable_name(texts[0]),
            startup_scan(texts, i as int, parse_flags) == startup_scan(texts, 1, true),
            version_long@ == seq!['-', '-', 'v', 'e', 'r', 's', 'i', 'o', 'n'],
            version_short@ == seq!['-', 'v'],
            help_long@ == seq!['-', '-', 'h', 'e', 'l', 'p'],
            help_short@ == seq!['-', 'h'],
            end_of_flags@ == seq!['-', '-'],
        decreases args@.len() - i,
    {
        let arg = &args[i];
        assert(texts[i as int] == arg@);
        if !parse_flags {
            return StartupAction::Run { initial_file: Some(arg.clone()) };
        }
        if arg.eq(&version_long) || arg.eq(&version_short) {
            return StartupAction::PrintVersion;
        }
        if arg.eq(&help_long) || arg.eq(&help_short) {
            return StartupAction::PrintHelp { program_name };
        }
        if arg.eq(&end_of_flags) {
            parse_flags = false;
        } else if arg.as_str().unicode_len() > 0 && arg.as_str().get_char(0) == '-' {
        } else {
            return StartupAction::Run { initial_file: Some(arg.clone()) };
        }
        i = i + 1;
    }
    StartupAction::Run { initial_file: None }
}

} // verus!
