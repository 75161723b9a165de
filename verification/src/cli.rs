//! The command lines of the `spot` tool and of the performance comparison
//! tool: what their arguments ask for.
use vstd::prelude::*;

use crate::csv::string_views;
use crate::text::string_push_str;

verus! {

/// Where `spot install-skill` installs the skill.
#[derive(Debug, Clone, PartialEq, Eq)]
pub enum SkillArgs {
    /// The project directory given with `--project`.
    Project(String),
    /// No project given: the current directory.
    CurrentDir,
    /// Help was asked for.
    Help,
}

/// A command of the `spot` tool.
#[derive(Debug, Clone, PartialEq, Eq)]
pub enum SpotCommand {
    InstallSkill(SkillArgs),
    Help,
}

/// The meaning of `install-skill` arguments, or the error message they give.
pub enum ArgsMeaning {
    Project(Seq<char>),
    CurrentDir,
    Help,
    Error(Seq<char>),
}

/// Reads `install-skill` arguments from position `i` on, with `project`
/// the directory given so far: `--project` takes the next argument as the
/// directory (once), `-h` and `--help` ask for help, anything else is an
/// unknown argument.
pub open spec fn skill_args_from(args: Seq<Seq<char>>, i: int, project: Option<Seq<char>>) -> ArgsMeaning
    decreases args.len() - i,
{
    if i >= args.len() || i < 0 {
        match project {
            Some(p) => ArgsMeaning::Project(p),
            None => ArgsMeaning::CurrentDir,
        }
    } else if args[i] == "--project"@ {
        if i + 1 >= args.len() {
            ArgsMeaning::Error("--project requires a directory"@)
        } else if project is Some {
            ArgsMeaning::Error("--project may only be supplied once"@)
        } else {
            skill_args_from(args, i + 2, Some(args[i + 1]))
        }
    } else if args[i] == "-h"@ || args[i] == "--help"@ {
        ArgsMeaning::Help
    } else {
        ArgsMeaning::Error("unknown argument: "@ + args[i])
    }
}

/// The meaning of a parse result.
pub open spec fn meaning_of(r: Result<SkillArgs, String>) -> ArgsMeaning {
    match r {
        Ok(SkillArgs::Project(p)) => ArgsMeaning::Project(p@),
        Ok(SkillArgs::CurrentDir) => ArgsMeaning::CurrentDir,
        Ok(SkillArgs::Help) => ArgsMeaning::Help,
        Err(msg) => ArgsMeaning::Error(msg@),
    }
}

/// Whether `a` is exactly the text `b`.
fn is_arg(a: &String, b: &str) -> (r: bool)
    ensures
        r == (a@ == b@),
{
    *a == b.to_owned()
}

/// Reads the arguments of `spot install-skill`.
pub fn parse_install_skill_args(args: &[String]) -> (r: Result<SkillArgs, String>)
    ensures
        meaning_of(r) == skill_args_from(string_views(args@), 0, None),
{
    let ghost views = string_views(args@);
    let mut project: Option<String> = None;
    let mut index: usize = 0;
    while index < args.len()
        invariant
            views == string_views(args@),
            views.len() == args@.len(),
            skill_args_from(views, index as int, match project {
                Some(p) => Some(p@),
                None => None,
            }) == skill_args_from(views, 0, None),
        decreases args@.len() - index,
    {
        assert(views[index as int] == args@[index as int]@);
        if is_arg(&args[index], "--project") {
            if index + 1 >= args.len() {
                return Err("--project requires a directory".to_owned());
            }
            if project.is_some() {
                return Err("--project may only be supplied once".to_owned());
            }
            assert(views[index + 1] == args@[index + 1]@);
            project = Some(args[index + 1].clone());
            index = index + 2;
        } else if is_arg(&args[index], "-h") || is_arg(&args[index], "--help") {
            return Ok(SkillArgs::Help);
        } else {
            let mut msg = "unknown argument: ".to_owned();
            string_push_str(&mut msg, args[index].as_str());
            return Err(msg);
        }
    }
    match project {
        Some(p) => Ok(SkillArgs::Project(p)),
        None => Ok(SkillArgs::CurrentDir),
    }
}

/// The meaning of the whole argument list of `spot`.
pub enum CommandMeaning {
    Help,
    InstallSkill(ArgsMeaning),
    /// An unknown command, with the message to report.
    Unknown(Seq<char>),
}

/// `install-skill` reads the arguments after it, `-h`, `--help` or nothing
/// ask for help, and any other first argument is an unknown command.
pub open spec fn command_meaning(args: Seq<Seq<char>>) -> CommandMeaning {
    if args.len() == 0 || args[0] == "-h"@ || args[0] == "--help"@ {
        CommandMeaning::Help
    } else if args[0] == "install-skill"@ {
        CommandMeaning::InstallSkill(skill_args_from(args, 1, None))
    } else {
        CommandMeaning::Unknown("unknown command: "@ + args[0])
    }
}

/// Decides which command the arguments of `spot` (without the program name)
/// ask for; the error is the message to report.
pub fn command_from_args(args: &[String]) -> (r: Result<SpotCommand, String>)
    ensures
        match command_meaning(string_views(args@)) {
            CommandMeaning::Help => r == Ok::<SpotCommand, String>(SpotCommand::Help),
            CommandMeaning::InstallSkill(m) => match r {
                Ok(SpotCommand::InstallSkill(a)) => meaning_of(Ok(a)) == m,
                Err(msg) => m == ArgsMeaning::Error(msg@),
                Ok(SpotCommand::Help) => false,
            },
            CommandMeaning::Unknown(text) => r matches Err(msg) && msg@ == text,
        },
{
    let ghost views = string_views(args@);
    if args.len() == 0 {
        return Ok(SpotCommand::Help);
    }
    assert(views[0] == args@[0]@);
    if is_arg(&args[0], "-h") || is_arg(&args[0], "--help") {
        return Ok(SpotCommand::Help);
    }
    if is_arg(&args[0], "install-skill") {
        let rest = vstd::slice::slice_subrange(args, 1, args.len());
        proof {
            assert forall|k: int| 0 <= k < views.len() - 1 implies #[trigger] string_views(rest@)[k] == views[k + 1] by {}
            lemma_skill_args_shift(views, string_views(rest@), 1, 0, None);
        }
        return match parse_install_skill_args(rest) {
            Ok(a) => Ok(SpotCommand::InstallSkill(a)),
            Err(msg) => Err(msg),
        };
    }
    let mut msg = "unknown command: ".to_owned();
    string_push_str(&mut msg, args[0].as_str());
    Err(msg)
}

/// Reading the arguments from position `i` of `args` is reading a copy of
/// them shifted by `d` from position `i - d`.
proof fn lemma_skill_args_shift(
    args: Seq<Seq<char>>,
    shifted: Seq<Seq<char>>,
    i: int,
    j: int,
    project: Option<Seq<char>>,
)
    requires
        0 <= j,
        i - j >= 0,
        shifted.len() == args.len() - (i - j),
        forall|k: int| 0 <= k < shifted.len() ==> #[trigger] shifted[k] == args[k + (i - j)],
    ensures
        skill_args_from(args, i, project) == skill_args_from(shifted, j, project),
    decreases args.len() - i,
{
    if i < args.len() {
        assert(shifted[j] == args[i]);
        if args[i] == "--project"@ && i + 1 < args.len() && project is None {
            assert(shifted[j + 1] == args[i + 1]);
            lemma_skill_args_shift(args, shifted, i + 2, j + 2, Some(args[i + 1]));
        }
    }
}

/// Usage of the performance comparison tool.
pub open spec fn compare_usage() -> Seq<char> {
    "usage: spot-perf-compare BASELINE_DIR CURRENT_DIR [--tolerance PERCENT]"@
}

/// Options of the comparison tool from position `i` on: the values given
/// with `--tolerance`, in order, and the message of the first argument that
/// is not understood (`--tolerance` without a value, or anything else), if
/// any; reading stops there.
pub open spec fn compare_options(args: Seq<Seq<char>>, i: int) -> (Seq<Seq<char>>, Option<Seq<char>>)
    decreases args.len() - i,
{
    if i >= args.len() || i < 0 {
        (seq![], None)
    } else if args[i] == "--tolerance"@ {
        if i + 1 >= args.len() {
            (seq![], Some("--tolerance requires a percentage"@))
        } else {
            let rest = compare_options(args, i + 2);
            (seq![args[i + 1]] + rest.0, rest.1)
        }
    } else {
        (seq![], Some("unknown argument: "@ + args[i]))
    }
}

/// What the comparison tool's arguments ask for: the baseline and current
/// directories and the tolerance values given (each to be read as a
/// percentage, the last one counting).
#[derive(Debug, Clone, PartialEq, Eq)]
pub struct CompareArgs {
    pub baseline: String,
    pub current: String,
    pub tolerances: Vec<String>,
}

/// Reads the arguments of the performance comparison tool (without the
/// program name): two directories, then `--tolerance PERCENT` any number of
/// times. On an error, the tolerance values read before it come with the
/// message, since each of them is read as a number before the error is met.
pub fn parse_compare_args(args: &[String]) -> (r: Result<CompareArgs, (Vec<String>, String)>)
    ensures
        args@.len() < 2 ==> (r matches Err((seen, msg)) && seen@.len() == 0 && msg@ == compare_usage()),
        args@.len() >= 2 ==> {
            let (values, error) = compare_options(string_views(args@), 2);
            match r {
                Ok(a) => error is None && a.baseline@ == args@[0]@ && a.current@ == args@[1]@
                    && string_views(a.tolerances@) == values,
                Err((seen, msg)) => error == Some(msg@) && string_views(seen@) == values,
            }
        },
{
    let ghost views = string_views(args@);
    if args.len() < 2 {
        proof {
            reveal_strlit("usage: spot-perf-compare BASELINE_DIR CURRENT_DIR [--tolerance PERCENT]");
        }
        return Err((Vec::new(), "usage: spot-perf-compare BASELINE_DIR CURRENT_DIR [--tolerance PERCENT]".to_owned()));
    }
    let mut tolerances: Vec<String> = Vec::new();
    let mut index: usize = 2;
    while index < args.len()
        invariant
            2 <= index,
            views == string_views(args@),
            views.len() == args@.len(),
            compare_options(views, 2).0 == string_views(tolerances@) + compare_options(views, index as int).0,
            compare_options(views, 2).1 == compare_options(views, index as int).1,
        decreases args@.len() - index,
    {
        assert(views[index as int] == args@[index as int]@);
        if is_arg(&args[index], "--tolerance") {
            if index + 1 >= args.len() {
                assert(string_views(tolerances@) + seq![] =~= string_views(tolerances@));
                return Err((tolerances, "--tolerance requires a percentage".to_owned()));
            }
            assert(views[index + 1] == args@[index + 1]@);
            let ghost before = tolerances@;
            tolerances.push(args[index + 1].clone());
            assert(string_views(tolerances@) =~= string_views(before) + seq![views[index + 1]]);
            assert(string_views(before) + (seq![views[index + 1]] + compare_options(views, index + 2).0)
                =~= string_views(tolerances@) + compare_options(views, index + 2).0);
            index = index + 2;
        } else {
            let mut msg = "unknown argument: ".to_owned();
            string_push_str(&mut msg, args[index].as_str());
            assert(string_views(tolerances@) + seq![] =~= string_views(tolerances@));
            return Err((tolerances, msg));
        }
    }
    assert(string_views(tolerances@) + seq![] =~= string_views(tolerances@));
    Ok(CompareArgs { baseline: args[0].clone(), current: args[1].clone(), tolerances })
}

} // verus!
