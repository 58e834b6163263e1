//! Command-line options. Safe mode is on by default: the rename asks for
//! confirmation and refuses to overwrite or delete files unless options turn
//! that off.
use vstd::prelude::*;

use crate::text::{starts_with_char, str_eq};

verus! {

/// The options given on the command line. `dir` is the directory argument
/// as given, if any; resolving it against the file system is left to the
/// caller.
#[derive(Debug, PartialEq, Eq)]
pub struct CliArgs {
    pub dir: Option<String>,
    pub confirm: bool,
    pub prevent_delete: bool,
    pub help: bool,
}

/// The options as plain values.
pub struct CliModel {
    pub dir: Option<Seq<char>>,
    pub confirm: bool,
    pub prevent_delete: bool,
    pub help: bool,
}

impl CliArgs {
    pub open spec fn model(&self) -> CliModel {
        CliModel {
            dir: match self.dir {
                Some(d) => Some(d@),
                None => None,
            },
            confirm: self.confirm,
            prevent_delete: self.prevent_delete,
            help: self.help,
        }
    }
}

/// The options before any argument: confirmation and overwrite protection on.
pub open spec fn default_cli() -> CliModel {
    CliModel { dir: None, confirm: true, prevent_delete: true, help: false }
}

pub open spec fn is_help_flag(a: Seq<char>) -> bool {
    a == "-h"@ || a == "--help"@
}

pub open spec fn is_confirm_flag(a: Seq<char>) -> bool {
    a == "-c"@ || a == "--confirm"@ || a == "-i"@ || a == "--interactive"@
}

pub open spec fn is_no_confirm_flag(a: Seq<char>) -> bool {
    a == "-y"@ || a == "--no-confirm"@ || a == "--yes"@
}

pub open spec fn is_safe_flag(a: Seq<char>) -> bool {
    a == "-s"@ || a == "--safe"@
}

pub open spec fn is_prevent_flag(a: Seq<char>) -> bool {
    a == "-p"@ || a == "--prevent-delete"@ || a == "-n"@ || a == "--no-overwrite"@
        || a == "--prevent-overwrite"@
}

pub open spec fn is_force_flag(a: Seq<char>) -> bool {
    a == "-f"@ || a == "--force"@ || a == "--overwrite"@
}

pub open spec fn is_unsafe_flag(a: Seq<char>) -> bool {
    a == "--unsafe"@
}

/// The effect of one argument on the options read so far.
pub open spec fn cli_step(m: CliModel, a: Seq<char>) -> Result<CliModel, Seq<char>> {
    if is_help_flag(a) {
        Ok(CliModel { help: true, ..m })
    } else if is_confirm_flag(a) {
        Ok(CliModel { confirm: true, ..m })
    } else if is_no_confirm_flag(a) {
        Ok(CliModel { confirm: false, ..m })
    } else if is_safe_flag(a) {
        Ok(CliModel { confirm: true, prevent_delete: true, ..m })
    } else if is_prevent_flag(a) {
        Ok(CliModel { prevent_delete: true, ..m })
    } else if is_force_flag(a) {
        Ok(CliModel { prevent_delete: false, ..m })
    } else if is_unsafe_flag(a) {
        Ok(CliModel { confirm: false, prevent_delete: false, ..m })
    } else if a.len() > 0 && a[0] == '-' {
        Err("Unknown option: "@ + a)
    } else if m.dir is Some {
        Err("Unexpected argument: "@ + a)
    } else {
        Ok(CliModel { dir: Some(a), ..m })
    }
}

/// The arguments read from left to right; the first refused one decides.
pub open spec fn parse_cli(args: Seq<Seq<char>>) -> Result<CliModel, Seq<char>>
    decreases args.len(),
{
    if args.len() == 0 {
        Ok(default_cli())
    } else {
        match parse_cli(args.drop_last()) {
            Ok(m) => cli_step(m, args.last()),
            Err(e) => Err(e),
        }
    }
}

/// The views of a sequence of string slices.
pub open spec fn str_views(args: Seq<&str>) -> Seq<Seq<char>> {
    args.map_values(|a: &str| a@)
}

/// Reads the command-line arguments (the program name left out).
pub fn parse_cli_args(args: Vec<&str>) -> (r: Result<CliArgs, String>)
    ensures
        match (r, parse_cli(str_views(args@))) {
            (Ok(c), Ok(m)) => c.model() == m,
            (Err(e), Err(me)) => e@ == me,
            _ => false,
        },
{
    let ghost views = str_views(args@);
    let mut dir: Option<String> = None;
    let mut confirm = true;
    let mut prevent_delete = true;
    let mut help = false;
    let mut i: usize = 0;
    while i < args.len()
        invariant
            i <= args@.len(),
            views == str_views(args@),
            parse_cli(views.take(i as int)) == Ok::<CliModel, Seq<char>>(
                (CliArgs { dir, confirm, prevent_delete, help }).model(),
            ),
        decreases args.len() - i,
    {
        let arg = args[i];
        proof {
            assert(views.take(i + 1).drop_last() =~= views.take(i as int));
            assert(views.take(i + 1).last() == arg@);
        }
        if str_eq(arg, "-h") || str_eq(arg, "--help") {
            help = true;
        } else if str_eq(arg, "-c") || str_eq(arg, "--confirm") || str_eq(arg, "-i") || str_eq(
            arg,
            "--interactive",
        ) {
            confirm = true;
        } else if str_eq(arg, "-y") || str_eq(arg, "--no-confirm") || str_eq(arg, "--yes") {
            confirm = false;
        } else if str_eq(arg, "-s") || str_eq(arg, "--safe") {
            confirm = true;
            prevent_delete = true;
        } else if str_eq(arg, "-p") || str_eq(arg, "--prevent-delete") || str_eq(arg, "-n")
            || str_eq(arg, "--no-overwrite") || str_eq(arg, "--prevent-overwrite") {
            prevent_delete = true;
        } else if str_eq(arg, "-f") || str_eq(arg, "--force") || str_eq(arg, "--overwrite") {
            prevent_delete = false;
        } else if str_eq(arg, "--unsafe") {
            confirm = false;
            prevent_delete = false;
        } else if starts_with_char(arg, '-') {
            proof {
                lemma_parse_cli_stops(views, i as int);
            }
            return Err(String::from_str("Unknown option: ").concat(arg));
        } else if dir.is_some() {
            proof {
                lemma_parse_cli_stops(views, i as int);
            }
            return Err(String::from_str("Unexpected argument: ").concat(arg));
        } else {
            dir = Some(arg.to_string());
        }
        i += 1;
    }
    proof {
        assert(views.take(args@.len() as int) =~= views);
    }
    Ok(CliArgs { dir, confirm, prevent_delete, help })
}

/// Reading one more argument after `args`.
proof fn lemma_parse_cli_push(args: Seq<Seq<char>>, a: Seq<char>)
    ensures
        parse_cli(args.push(a)) == match parse_cli(args) {
            Ok(m) => cli_step(m, a),
            Err(e) => Err(e),
        },
{
    assert(args.push(a).drop_last() =~= args);
}

/// The text of each option name.
proof fn lemma_option_literals()
    ensures
        "-h"@ =~= seq!['-', 'h'],
        "--help"@ =~= seq!['-', '-', 'h', 'e', 'l', 'p'],
        "-c"@ =~= seq!['-', 'c'],
        "--confirm"@ =~= seq!['-', '-', 'c', 'o', 'n', 'f', 'i', 'r', 'm'],
        "-i"@ =~= seq!['-', 'i'],
        "--interactive"@ =~= seq!['-', '-', 'i', 'n', 't', 'e', 'r', 'a', 'c', 't', 'i', 'v', 'e'],
        "-y"@ =~= seq!['-', 'y'],
        "--no-confirm"@ =~= seq!['-', '-', 'n', 'o', '-', 'c', 'o', 'n', 'f', 'i', 'r', 'm'],
        "--yes"@ =~= seq!['-', '-', 'y', 'e', 's'],
        "-s"@ =~= seq!['-', 's'],
        "--safe"@ =~= seq!['-', '-', 's', 'a', 'f', 'e'],
        "-p"@ =~= seq!['-', 'p'],
        "--prevent-delete"@ =~= seq!['-', '-', 'p', 'r', 'e', 'v', 'e', 'n', 't', '-', 'd', 'e', 'l', 'e', 't', 'e'],
        "-n"@ =~= seq!['-', 'n'],
        "--no-overwrite"@ =~= seq!['-', '-', 'n', 'o', '-', 'o', 'v', 'e', 'r', 'w', 'r', 'i', 't', 'e'],
        "--prevent-overwrite"@ =~= seq!['-', '-', 'p', 'r', 'e', 'v', 'e', 'n', 't', '-', 'o', 'v', 'e', 'r', 'w', 'r', 'i', 't', 'e'],
        "-f"@ =~= seq!['-', 'f'],
        "--force"@ =~= seq!['-', '-', 'f', 'o', 'r', 'c', 'e'],
        "--overwrite"@ =~= seq!['-', '-', 'o', 'v', 'e', 'r', 'w', 'r', 'i', 't', 'e'],
        "--unsafe"@ =~= seq!['-', '-', 'u', 'n', 's', 'a', 'f', 'e'],
{
    reveal_strlit("-h");
    reveal_strlit("--help");
    reveal_strlit("-c");
    reveal_strlit("--confirm");
    reveal_strlit("-i");
    reveal_strlit("--interactive");
    reveal_strlit("-y");
    reveal_strlit("--no-confirm");
    reveal_strlit("--yes");
    reveal_strlit("-s");
    reveal_strlit("--safe");
    reveal_strlit("-p");
    reveal_strlit("--prevent-delete");
    reveal_strlit("-n");
    reveal_strlit("--no-overwrite");
    reveal_strlit("--prevent-overwrite");
    reveal_strlit("-f");
    reveal_strlit("--force");
    reveal_strlit("--overwrite");
    reveal_strlit("--unsafe");
}

/// What an option `a` given after `args` yields: an earlier refusal stands;
/// otherwise the options read so far with confirmation set to `confirm` and
/// overwrite protection to `prevent` where these are given, and the help
/// request added when `help` holds; the directory stays.
pub open spec fn option_sets(
    args: Seq<Seq<char>>,
    a: Seq<char>,
    confirm: Option<bool>,
    prevent: Option<bool>,
    help: bool,
) -> bool {
    match parse_cli(args) {
        Err(e) => parse_cli(args.push(a)) == Err::<CliModel, Seq<char>>(e),
        Ok(m) => parse_cli(args.push(a)) == Ok::<CliModel, Seq<char>>(
            CliModel {
                dir: m.dir,
                confirm: match confirm {
                    Some(c) => c,
                    None => m.confirm,
                },
                prevent_delete: match prevent {
                    Some(p) => p,
                    None => m.prevent_delete,
                },
                help: if help { true } else { m.help },
            },
        ),
    }
}

/// After any arguments, `-h` and `--help` ask for help. Nothing else changes.
pub proof fn lemma_help_options(args: Seq<Seq<char>>)
    ensures
        option_sets(args, "-h"@, None, None, true),
        option_sets(args, "--help"@, None, None, true),
{
    lemma_option_literals();
    lemma_parse_cli_push(args, "-h"@);
    lemma_parse_cli_push(args, "--help"@);
}

/// After any arguments, `-c`, `--confirm`, `-i` and `--interactive` turn confirmation on. Nothing else changes.
pub proof fn lemma_confirm_options(args: Seq<Seq<char>>)
    ensures
        option_sets(args, "-c"@, Some(true), None, false),
        option_sets(args, "--confirm"@, Some(true), None, false),
        option_sets(args, "-i"@, Some(true), None, false),
        option_sets(args, "--interactive"@, Some(true), None, false),
        parse_cli(args.push("-i"@)) == parse_cli(args.push("-c"@)),
        parse_cli(args.push("--interactive"@)) == parse_cli(args.push("-c"@)),
{
    lemma_option_literals();
    lemma_parse_cli_push(args, "-c"@);
    lemma_parse_cli_push(args, "--confirm"@);
    lemma_parse_cli_push(args, "-i"@);
    lemma_parse_cli_push(args, "--interactive"@);
}

/// After any arguments, `-y`, `--no-confirm` and `--yes` turn confirmation off. Nothing else changes.
pub proof fn lemma_no_confirm_options(args: Seq<Seq<char>>)
    ensures
        option_sets(args, "-y"@, Some(false), None, false),
        option_sets(args, "--no-confirm"@, Some(false), None, false),
        option_sets(args, "--yes"@, Some(false), None, false),
{
    lemma_option_literals();
    lemma_parse_cli_push(args, "-y"@);
    lemma_parse_cli_push(args, "--no-confirm"@);
    lemma_parse_cli_push(args, "--yes"@);
}

/// After any arguments, `-s` and `--safe` turn confirmation and overwrite protection on. Nothing else changes.
pub proof fn lemma_safe_options(args: Seq<Seq<char>>)
    ensures
        option_sets(args, "-s"@, Some(true), Some(true), false),
        option_sets(args, "--safe"@, Some(true), Some(true), false),
{
    lemma_option_literals();
    lemma_parse_cli_push(args, "-s"@);
    lemma_parse_cli_push(args, "--safe"@);
}

/// After any arguments, `-p`, `--prevent-delete`, `-n`, `--no-overwrite` and `--prevent-overwrite` turn overwrite protection on. Nothing else changes.
pub proof fn lemma_prevent_options(args: Seq<Seq<char>>)
    ensures
        option_sets(args, "-p"@, None, Some(true), false),
        option_sets(args, "--prevent-delete"@, None, Some(true), false),
        option_sets(args, "-n"@, None, Some(true), false),
        option_sets(args, "--no-overwrite"@, None, Some(true), false),
        option_sets(args, "--prevent-overwrite"@, None, Some(true), false),
{
    lemma_option_literals();
    lemma_parse_cli_push(args, "-p"@);
    lemma_parse_cli_push(args, "--prevent-delete"@);
    lemma_parse_cli_push(args, "-n"@);
    lemma_parse_cli_push(args, "--no-overwrite"@);
    lemma_parse_cli_push(args, "--prevent-overwrite"@);
}

/// After any arguments, `-f`, `--force` and `--overwrite` turn overwrite protection off. Nothing else changes.
pub proof fn lemma_force_options(args: Seq<Seq<char>>)
    ensures
        option_sets(args, "-f"@, None, Some(false), false),
        option_sets(args, "--force"@, None, Some(false), false),
        option_sets(args, "--overwrite"@, None, Some(false), false),
{
    lemma_option_literals();
    lemma_parse_cli_push(args, "-f"@);
    lemma_parse_cli_push(args, "--force"@);
    lemma_parse_cli_push(args, "--overwrite"@);
}

/// After any arguments, `--unsafe` turns confirmation and overwrite protection off. Nothing else changes.
pub proof fn lemma_unsafe_options(args: Seq<Seq<char>>)
    ensures
        option_sets(args, "--unsafe"@, Some(false), Some(false), false),
{
    lemma_option_literals();
    lemma_parse_cli_push(args, "--unsafe"@);
}

/// With no arguments the options are the safe defaults: confirmation and
/// overwrite protection on, no help, no directory.
pub proof fn lemma_no_arguments_safe()
    ensures
        parse_cli(Seq::<Seq<char>>::empty()) == Ok::<CliModel, Seq<char>>(
            CliModel { dir: None, confirm: true, prevent_delete: true, help: false },
        ),
{
}

/// An argument starting with `-` that is no known option is refused with
/// `Unknown option: ` and the argument; a second directory argument is
/// refused with `Unexpected argument: ` and the argument; the first one is
/// taken as the directory.
pub proof fn lemma_other_arguments(args: Seq<Seq<char>>, a: Seq<char>)
    requires
        parse_cli(args) is Ok,
    ensures
        !is_known_flag(a) && a.len() > 0 && a[0] == '-' ==> parse_cli(args.push(a))
            == Err::<CliModel, Seq<char>>("Unknown option: "@ + a),
        is_positional(a) && parse_cli(args)->Ok_0.dir is Some ==> parse_cli(args.push(a))
            == Err::<CliModel, Seq<char>>("Unexpected argument: "@ + a),
        is_positional(a) && parse_cli(args)->Ok_0.dir is None ==> parse_cli(args.push(a))
            == Ok::<CliModel, Seq<char>>(CliModel { dir: Some(a), ..parse_cli(args)->Ok_0 }),
{
    lemma_parse_cli_push(args, a);
}

/// Whether `a` is one of the known options.
pub open spec fn is_known_flag(a: Seq<char>) -> bool {
    is_help_flag(a) || is_confirm_flag(a) || is_no_confirm_flag(a) || is_safe_flag(a)
        || is_prevent_flag(a) || is_force_flag(a) || is_unsafe_flag(a)
}

/// Whether `a` is read as the directory argument.
pub open spec fn is_positional(a: Seq<char>) -> bool {
    !is_known_flag(a) && !(a.len() > 0 && a[0] == '-')
}

/// Arguments that read the same give the same options whatever follows.
proof fn lemma_parse_cli_extend(x: Seq<Seq<char>>, y: Seq<Seq<char>>, post: Seq<Seq<char>>)
    requires
        parse_cli(x) == parse_cli(y),
    ensures
        parse_cli(x + post) == parse_cli(y + post),
    decreases post.len(),
{
    if post.len() == 0 {
        assert(x + post =~= x);
        assert(y + post =~= y);
    } else {
        lemma_parse_cli_extend(x, y, post.drop_last());
        assert((x + post).drop_last() =~= x + post.drop_last());
        assert((y + post).drop_last() =~= y + post.drop_last());
    }
}

/// Where the directory argument stands among the options does not matter:
/// swapping it with a neighbouring option gives the same result.
pub proof fn lemma_directory_position_irrelevant(
    pre: Seq<Seq<char>>,
    flag: Seq<char>,
    dir: Seq<char>,
    post: Seq<Seq<char>>,
)
    requires
        is_known_flag(flag),
        is_positional(dir),
    ensures
        parse_cli(pre + seq![flag, dir] + post) == parse_cli(pre + seq![dir, flag] + post),
{
    let x = pre + seq![flag, dir];
    let y = pre + seq![dir, flag];
    assert(x.drop_last() =~= pre.push(flag));
    assert(pre.push(flag).drop_last() =~= pre);
    assert(y.drop_last() =~= pre.push(dir));
    assert(pre.push(dir).drop_last() =~= pre);
    match parse_cli(pre) {
        Err(e) => {
            assert(parse_cli(pre.push(flag)) == Err::<CliModel, Seq<char>>(e));
            assert(parse_cli(pre.push(dir)) == Err::<CliModel, Seq<char>>(e));
        },
        Ok(m0) => {
            let s1 = cli_step(m0, flag);
            assert(s1 is Ok);
            let m1 = s1->Ok_0;
            assert(m1.dir == m0.dir);
            let s2 = cli_step(m0, dir);
            if m0.dir is Some {
                assert(s2 == Err::<CliModel, Seq<char>>("Unexpected argument: "@ + dir));
                assert(cli_step(m1, dir) == s2);
            } else {
                let m2 = CliModel { dir: Some(dir), ..m0 };
                assert(s2 == Ok::<CliModel, Seq<char>>(m2));
                assert(cli_step(m1, dir) == Ok::<CliModel, Seq<char>>(CliModel { dir: Some(dir), ..m1 }));
                assert(cli_step(m2, flag) == Ok::<CliModel, Seq<char>>(CliModel { dir: Some(dir), ..m1 }));
            }
        },
    }
    assert(parse_cli(x) == parse_cli(y));
    lemma_parse_cli_extend(x, y, post);
}

/// Once an argument is refused, the arguments after it change nothing.
proof fn lemma_parse_cli_stops(args: Seq<Seq<char>>, i: int)
    requires
        0 <= i < args.len(),
        parse_cli(args.take(i + 1)) is Err,
    ensures
        parse_cli(args) == parse_cli(args.take(i + 1)),
    decreases args.len() - i,
{
    if i + 1 == args.len() {
        assert(args.take(i + 1) =~= args);
    } else {
        assert(args.take(i + 2).drop_last() =~= args.take(i + 1));
        lemma_parse_cli_stops(args, i + 1);
    }
}

} // verus!
