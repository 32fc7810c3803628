//! Command-line argument parsing.
use vstd::prelude::*;
use crate::text::{owned_text, same_text, string_texts};

verus! {

/// Represents the parsed command-line arguments (paths as given on the command line).
pub struct CliArgs {
    pub input: String,
    pub allowlist: Option<String>,
    pub out: String,
}

/// The text of an optional string.
pub open spec fn opt_text(o: Option<String>) -> Option<Seq<char>> {
    match o {
        Some(s) => Some(s@),
        None => None,
    }
}

/// The usage line shown when no subcommand is given.
pub open spec fn usage_text() -> Seq<char> {
    "Usage: iocguard validate --input <path> [--allowlist <path>] --out <path>"@
}

/// The options after the subcommand, read from position `i` on, given the values
/// `(input, allowlist, out)` found so far; a later option overrides an earlier one.
pub open spec fn scan_options(
    args: Seq<Seq<char>>,
    i: int,
    found: (Option<Seq<char>>, Option<Seq<char>>, Option<Seq<char>>),
) -> Result<(Option<Seq<char>>, Option<Seq<char>>, Option<Seq<char>>), Seq<char>>
    decreases args.len() - i,
{
    if i < 0 || i >= args.len() {
        Ok(found)
    } else if args[i] == "--input"@ {
        if i + 1 >= args.len() {
            Err("Missing value for --input"@)
        } else {
            scan_options(args, i + 2, (Some(args[i + 1]), found.1, found.2))
        }
    } else if args[i] == "--allowlist"@ {
        if i + 1 >= args.len() {
            Err("Missing value for --allowlist"@)
        } else {
            scan_options(args, i + 2, (found.0, Some(args[i + 1]), found.2))
        }
    } else if args[i] == "--out"@ {
        if i + 1 >= args.len() {
            Err("Missing value for --out"@)
        } else {
            scan_options(args, i + 2, (found.0, found.1, Some(args[i + 1])))
        }
    } else {
        Err("Unknown argument '"@ + args[i] + "'"@)
    }
}

/// What `parse_arg_list` answers for the argument list `args` (the program name first):
/// `(input, allowlist, out)` or the error message.
pub open spec fn cli_result(args: Seq<Seq<char>>) -> Result<(Seq<char>, Option<Seq<char>>, Seq<char>), Seq<char>> {
    if args.len() < 2 {
        Err(usage_text())
    } else if args[1] != "validate"@ {
        Err("Unknown subcommand '"@ + args[1] + "'. Expected 'validate'."@)
    } else {
        match scan_options(args, 2, (None, None, None)) {
            Err(m) => Err(m),
            Ok((input, allowlist, out)) => match input {
                None => Err("Missing required argument --input"@),
                Some(inp) => match out {
                    None => Err("Missing required argument --out"@),
                    Some(o) => Ok((inp, allowlist, o)),
                },
            },
        }
    }
}

/// One of the options that take a value.
pub open spec fn is_option_flag(f: Seq<char>) -> bool {
    f == "--input"@ || f == "--allowlist"@ || f == "--out"@
}

/// The first problem among the arguments from position `i` on, read as option/value
/// pairs: a token that is not an option, or an option with no value after it.
pub open spec fn option_error(args: Seq<Seq<char>>, i: int) -> Option<Seq<char>>
    decreases args.len() - i,
{
    if i < 0 || i >= args.len() {
        None
    } else if !is_option_flag(args[i]) {
        Some("Unknown argument '"@ + args[i] + "'"@)
    } else if i + 1 >= args.len() {
        Some("Missing value for "@ + args[i])
    } else {
        option_error(args, i + 2)
    }
}

/// The value of the last `flag` pair among the option/value pairs from position `i` on,
/// or `given` when there is none.
pub open spec fn last_value(args: Seq<Seq<char>>, i: int, flag: Seq<char>, given: Option<Seq<char>>) -> Option<Seq<char>>
    decreases args.len() - i,
{
    if i < 0 || i + 1 >= args.len() {
        given
    } else if args[i] == flag {
        last_value(args, i + 2, flag, Some(args[i + 1]))
    } else {
        last_value(args, i + 2, flag, given)
    }
}

proof fn lemma_scan_options(
    args: Seq<Seq<char>>,
    i: int,
    found: (Option<Seq<char>>, Option<Seq<char>>, Option<Seq<char>>),
)
    requires
        i >= 0,
    ensures
        match option_error(args, i) {
            Some(m) => scan_options(args, i, found) == Err::<
                (Option<Seq<char>>, Option<Seq<char>>, Option<Seq<char>>),
                Seq<char>,
            >(m),
            None => scan_options(args, i, found) == Ok::<
                (Option<Seq<char>>, Option<Seq<char>>, Option<Seq<char>>),
                Seq<char>,
            >(
                (
                    last_value(args, i, "--input"@, found.0),
                    last_value(args, i, "--allowlist"@, found.1),
                    last_value(args, i, "--out"@, found.2),
                ),
            ),
        },
    decreases args.len() - i,
{
    reveal_strlit("--input");
    reveal_strlit("--allowlist");
    reveal_strlit("--out");
    reveal_strlit("Missing value for ");
    reveal_strlit("Missing value for --input");
    reveal_strlit("Missing value for --allowlist");
    reveal_strlit("Missing value for --out");
    assert("--input"@ != "--allowlist"@ && "--input"@ != "--out"@ && "--allowlist"@ != "--out"@) by {
        assert("--input"@.len() != "--allowlist"@.len());
        assert("--input"@.len() != "--out"@.len());
        assert("--allowlist"@.len() != "--out"@.len());
    }
    if i < args.len() && is_option_flag(args[i]) {
        if i + 1 >= args.len() {
            assert("Missing value for --input"@ =~= "Missing value for "@ + "--input"@);
            assert("Missing value for --allowlist"@ =~= "Missing value for "@ + "--allowlist"@);
            assert("Missing value for --out"@ =~= "Missing value for "@ + "--out"@);
        } else if args[i] == "--input"@ {
            lemma_scan_options(args, i + 2, (Some(args[i + 1]), found.1, found.2));
        } else if args[i] == "--allowlist"@ {
            lemma_scan_options(args, i + 2, (found.0, Some(args[i + 1]), found.2));
        } else {
            lemma_scan_options(args, i + 2, (found.0, found.1, Some(args[i + 1])));
        }
    }
}

/// The argument rules, stated by what goes wrong first: fewer than two arguments give
/// the usage line; a subcommand other than `validate` is refused; then the first
/// option/value problem (an unknown token, or an option without a value) is reported;
/// then a missing `--input`, then a missing `--out`. Otherwise the result holds the
/// value of the last `--input`, the last `--allowlist` (if any) and the last `--out`.
pub proof fn lemma_arguments_rules(args: Seq<Seq<char>>)
    ensures
        args.len() < 2 ==> cli_result(args) == Err::<
            (Seq<char>, Option<Seq<char>>, Seq<char>),
            Seq<char>,
        >(usage_text()),
        args.len() >= 2 && args[1] != "validate"@ ==> cli_result(args) == Err::<
            (Seq<char>, Option<Seq<char>>, Seq<char>),
            Seq<char>,
        >("Unknown subcommand '"@ + args[1] + "'. Expected 'validate'."@),
        args.len() >= 2 && args[1] == "validate"@ ==> cli_result(args) == match option_error(
            args,
            2,
        ) {
            Some(m) => Err(m),
            None => match last_value(args, 2, "--input"@, None) {
                None => Err("Missing required argument --input"@),
                Some(inp) => match last_value(args, 2, "--out"@, None) {
                    None => Err("Missing required argument --out"@),
                    Some(o) => Ok((inp, last_value(args, 2, "--allowlist"@, None), o)),
                },
            },
        },
{
    lemma_scan_options(args, 2, (None, None, None));
}

/// Parses the command-line arguments (the program name first).
/// Expected format:
///   iocguard validate --input <path> [--allowlist <path>] --out <path>
pub fn parse_arg_list(args: &Vec<String>) -> (r: Result<CliArgs, String>)
    ensures
        match r {
            Ok(a) => cli_result(string_texts(args@)) == Ok::<
                (Seq<char>, Option<Seq<char>>, Seq<char>),
                Seq<char>,
            >((a.input@, opt_text(a.allowlist), a.out@)),
            Err(m) => cli_result(string_texts(args@)) == Err::<
                (Seq<char>, Option<Seq<char>>, Seq<char>),
                Seq<char>,
            >(m@),
        },
{
    let ghost all = string_texts(args@);
    if args.len() < 2 {
        return Err(owned_text("Usage: iocguard validate --input <path> [--allowlist <path>] --out <path>"));
    }
    assert(all[1] == args@[1]@);
    if !same_text(args[1].as_str(), "validate") {
        let mut m = owned_text("Unknown subcommand '");
        m.append(args[1].as_str());
        m.append("'. Expected 'validate'.");
        return Err(m);
    }
    let mut input: Option<String> = None;
    let mut allowlist: Option<String> = None;
    let mut out: Option<String> = None;
    let mut i: usize = 2;
    while i < args.len()
        invariant
            all == string_texts(args@),
            all.len() == args.len(),
            all[1] == "validate"@,
            2 <= i <= args.len(),
            scan_options(all, 2, (None, None, None)) == scan_options(
                all,
                i as int,
                (opt_text(input), opt_text(allowlist), opt_text(out)),
            ),
        decreases args.len() - i,
    {
        let arg = args[i].as_str();
        assert(all[i as int] == arg@);
        if same_text(arg, "--input") {
            if i + 1 >= args.len() {
                return Err(owned_text("Missing value for --input"));
            }
            assert(all[i + 1] == args@[i + 1]@);
            input = Some(args[i + 1].clone());
        } else if same_text(arg, "--allowlist") {
            if i + 1 >= args.len() {
                return Err(owned_text("Missing value for --allowlist"));
            }
            assert(all[i + 1] == args@[i + 1]@);
            allowlist = Some(args[i + 1].clone());
        } else if same_text(arg, "--out") {
            if i + 1 >= args.len() {
                return Err(owned_text("Missing value for --out"));
            }
            assert(all[i + 1] == args@[i + 1]@);
            out = Some(args[i + 1].clone());
        } else {
            let mut m = owned_text("Unknown argument '");
            m.append(arg);
            m.append("'");
            return Err(m);
        }
        i = i + 2;
    }
    let input = match input {
        Some(p) => p,
        None => {
            return Err(owned_text("Missing required argument --input"));
        },
    };
    let out = match out {
        Some(p) => p,
        None => {
            return Err(owned_text("Missing required argument --out"));
        },
    };
    Ok(CliArgs { input, allowlist, out })
}

} // verus!
