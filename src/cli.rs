use vstd::prelude::*;

use crate::package::{chars_of, same_chars_vec};

verus! {

#[derive(PartialEq, Eq, Debug)]
pub struct SingleProfileCli {
    pub profile: String,
}

#[derive(PartialEq, Eq, Debug)]
pub struct FromToProfileCli {
    pub from: String,
    pub to: String,
}

#[derive(PartialEq, Eq, Debug)]
pub enum Commands {
    /// Reset the repository
    Reset(SingleProfileCli),
    /// Update the repository
    Update(SingleProfileCli),
    /// Move packages from the current directory into the repository
    MovePkgsToRepo(SingleProfileCli),
    /// Move packages from one repository to another
    MovePkgs(FromToProfileCli),
    /// Check whether the packages are up to date
    IsPkgsUpToDate(SingleProfileCli),
    /// Prune the backup directory down to the configured number of versions
    CleanupBackupDir(SingleProfileCli),
}

/// The command line: the global `--profile`, `--from` and `--to` options and
/// one subcommand.
#[derive(PartialEq, Eq, Debug)]
pub struct Cli {
    pub profile: Option<String>,
    pub from: Option<String>,
    pub to: Option<String>,
    pub command: Commands,
}

/// Why a command line was refused.
#[derive(PartialEq, Eq, Debug, Clone, Copy)]
pub enum CliError {
    /// An option without its value.
    MissingValue,
    /// An option given twice.
    RepeatedOption,
    /// A token that is neither an option nor a subcommand, or a second subcommand.
    UnexpectedArgument,
    /// No subcommand.
    MissingSubcommand,
    /// The subcommand lacks a profile it needs.
    MissingProfile,
}

#[derive(PartialEq, Eq, Debug, Clone, Copy)]
pub enum Sub {
    Reset,
    Update,
    MovePkgsToRepo,
    MovePkgs,
    IsPkgsUpToDate,
    CleanupBackupDir,
}

#[derive(PartialEq, Eq, Debug, Clone, Copy)]
pub enum Token {
    Profile,
    From,
    To,
    Command(Sub),
    Other,
}

pub open spec fn token_kind(t: Seq<char>) -> Token {
    if t == "--profile"@ || t == "-p"@ {
        Token::Profile
    } else if t == "--from"@ || t == "-f"@ {
        Token::From
    } else if t == "--to"@ || t == "-t"@ {
        Token::To
    } else if t == "reset"@ {
        Token::Command(Sub::Reset)
    } else if t == "update"@ {
        Token::Command(Sub::Update)
    } else if t == "move-pkgs-to-repo"@ {
        Token::Command(Sub::MovePkgsToRepo)
    } else if t == "move-pkgs"@ {
        Token::Command(Sub::MovePkgs)
    } else if t == "is-pkgs-up-to-date"@ {
        Token::Command(Sub::IsPkgsUpToDate)
    } else if t == "cleanup-backup-dir"@ {
        Token::Command(Sub::CleanupBackupDir)
    } else {
        Token::Other
    }
}

/// What the tokens read so far gave: the three options and the subcommand.
pub struct ArgsRead {
    pub profile: Option<Seq<char>>,
    pub from: Option<Seq<char>>,
    pub to: Option<Seq<char>>,
    pub command: Option<Sub>,
}

pub open spec fn set_opt(cur: Option<Seq<char>>, a: Seq<Seq<char>>, i: int) -> Result<Option<Seq<char>>, CliError> {
    if i + 1 >= a.len() {
        Err(CliError::MissingValue)
    } else if cur is Some {
        Err(CliError::RepeatedOption)
    } else {
        Ok(Some(a[i + 1]))
    }
}

/// Reads the tokens `a[i..]` on top of `st`.
pub open spec fn read_args(a: Seq<Seq<char>>, i: int, st: ArgsRead) -> Result<ArgsRead, CliError>
    decreases a.len() - i,
{
    if i < 0 || i >= a.len() {
        Ok(st)
    } else {
        match token_kind(a[i]) {
            Token::Profile => match set_opt(st.profile, a, i) {
                Ok(v) => read_args(a, i + 2, ArgsRead { profile: v, ..st }),
                Err(e) => Err(e),
            },
            Token::From => match set_opt(st.from, a, i) {
                Ok(v) => read_args(a, i + 2, ArgsRead { from: v, ..st }),
                Err(e) => Err(e),
            },
            Token::To => match set_opt(st.to, a, i) {
                Ok(v) => read_args(a, i + 2, ArgsRead { to: v, ..st }),
                Err(e) => Err(e),
            },
            Token::Command(s) => if st.command is Some {
                Err(CliError::UnexpectedArgument)
            } else {
                read_args(a, i + 1, ArgsRead { command: Some(s), ..st })
            },
            Token::Other => Err(CliError::UnexpectedArgument),
        }
    }
}

pub open spec fn empty_read() -> ArgsRead {
    ArgsRead { profile: None, from: None, to: None, command: None }
}

pub open spec fn opt_str(o: Option<String>) -> Option<Seq<char>> {
    match o {
        Some(s) => Some(s@),
        None => None,
    }
}

pub open spec fn command_of(c: Commands) -> Sub {
    match c {
        Commands::Reset(_) => Sub::Reset,
        Commands::Update(_) => Sub::Update,
        Commands::MovePkgsToRepo(_) => Sub::MovePkgsToRepo,
        Commands::MovePkgs(_) => Sub::MovePkgs,
        Commands::IsPkgsUpToDate(_) => Sub::IsPkgsUpToDate,
        Commands::CleanupBackupDir(_) => Sub::CleanupBackupDir,
    }
}

/// The subcommand has the profiles it needs, and carries them.
pub open spec fn command_fits(c: Commands, st: ArgsRead) -> bool {
    match c {
        Commands::MovePkgs(x) => st.from == Some(x.from@) && st.to == Some(x.to@),
        Commands::Reset(x) => st.profile == Some(x.profile@),
        Commands::Update(x) => st.profile == Some(x.profile@),
        Commands::MovePkgsToRepo(x) => st.profile == Some(x.profile@),
        Commands::IsPkgsUpToDate(x) => st.profile == Some(x.profile@),
        Commands::CleanupBackupDir(x) => st.profile == Some(x.profile@),
    }
}

/// The error for a well-read command line, if any.
pub open spec fn final_error(st: ArgsRead) -> Option<CliError> {
    match st.command {
        None => Some(CliError::MissingSubcommand),
        Some(Sub::MovePkgs) => if st.from is Some && st.to is Some {
            None
        } else {
            Some(CliError::MissingProfile)
        },
        Some(_) => if st.profile is Some {
            None
        } else {
            Some(CliError::MissingProfile)
        },
    }
}

pub open spec fn arg_views(args: Seq<&str>) -> Seq<Seq<char>> {
    args.map_values(|s: &str| s@)
}

fn is_word(c: &Vec<char>, w: &str) -> (r: bool)
    ensures
        r == (c@ == w@),
{
    same_chars_vec(c, &chars_of(w))
}

fn token_kind_exec(t: &str) -> (r: Token)
    ensures
        r == token_kind(t@),
{
    let c = chars_of(t);
    if is_word(&c, "--profile") || is_word(&c, "-p") {
        Token::Profile
    } else if is_word(&c, "--from") || is_word(&c, "-f") {
        Token::From
    } else if is_word(&c, "--to") || is_word(&c, "-t") {
        Token::To
    } else if is_word(&c, "reset") {
        Token::Command(Sub::Reset)
    } else if is_word(&c, "update") {
        Token::Command(Sub::Update)
    } else if is_word(&c, "move-pkgs-to-repo") {
        Token::Command(Sub::MovePkgsToRepo)
    } else if is_word(&c, "move-pkgs") {
        Token::Command(Sub::MovePkgs)
    } else if is_word(&c, "is-pkgs-up-to-date") {
        Token::Command(Sub::IsPkgsUpToDate)
    } else if is_word(&c, "cleanup-backup-dir") {
        Token::Command(Sub::CleanupBackupDir)
    } else {
        Token::Other
    }
}

fn opt_string(o: &Option<String>) -> (r: String)
    requires
        o is Some,
    ensures
        r@ == o->0@,
{
    match o {
        Some(s) => s.clone(),
        None => String::new(),
    }
}

impl Cli {
    /// Reads a command line; the first token is the program name.
    pub fn parse_from(args: &[&str]) -> (r: Result<Cli, CliError>)
        ensures
            args@.len() > 0 ==> match read_args(arg_views(args@), 1, empty_read()) {
                Err(e) => r == Err::<Cli, CliError>(e),
                Ok(st) => match final_error(st) {
                    Some(e) => r == Err::<Cli, CliError>(e),
                    None => r matches Ok(c) && opt_str(c.profile) == st.profile && opt_str(c.from)
                        == st.from && opt_str(c.to) == st.to && st.command == Some(command_of(c.command))
                        && command_fits(c.command, st),
                },
            },
            args@.len() == 0 ==> r == Err::<Cli, CliError>(CliError::MissingSubcommand),
    {
        if args.len() == 0 {
            return Err(CliError::MissingSubcommand);
        }
        let ghost a = arg_views(args@);
        let mut profile: Option<String> = None;
        let mut from: Option<String> = None;
        let mut to: Option<String> = None;
        let mut command: Option<Sub> = None;
        let mut i: usize = 1;
        while i < args.len()
            invariant
                1 <= i,
                a == arg_views(args@),
                read_args(a, 1, empty_read()) == read_args(
                    a,
                    i as int,
                    ArgsRead { profile: opt_str(profile), from: opt_str(from), to: opt_str(to), command },
                ),
            decreases args@.len() - i,
        {
            let ghost st = ArgsRead { profile: opt_str(profile), from: opt_str(from), to: opt_str(to), command };
            match token_kind_exec(args[i]) {
                Token::Profile => {
                    if i + 1 >= args.len() {
                        return Err(CliError::MissingValue);
                    }
                    if profile.is_some() {
                        return Err(CliError::RepeatedOption);
                    }
                    profile = Some(String::from_str(args[i + 1]));
                    i = i + 2;
                },
                Token::From => {
                    if i + 1 >= args.len() {
                        return Err(CliError::MissingValue);
                    }
                    if from.is_some() {
                        return Err(CliError::RepeatedOption);
                    }
                    from = Some(String::from_str(args[i + 1]));
                    i = i + 2;
                },
                Token::To => {
                    if i + 1 >= args.len() {
                        return Err(CliError::MissingValue);
                    }
                    if to.is_some() {
                        return Err(CliError::RepeatedOption);
                    }
                    to = Some(String::from_str(args[i + 1]));
                    i = i + 2;
                },
                Token::Command(s) => {
                    if command.is_some() {
                        return Err(CliError::UnexpectedArgument);
                    }
                    command = Some(s);
                    i = i + 1;
                },
                Token::Other => {
                    return Err(CliError::UnexpectedArgument);
                },
            }
        }
        let ghost st = ArgsRead { profile: opt_str(profile), from: opt_str(from), to: opt_str(to), command };
        let sub = match command {
            None => {
                return Err(CliError::MissingSubcommand);
            },
            Some(s) => s,
        };
        let cmd = match sub {
            Sub::MovePkgs => {
                if from.is_none() || to.is_none() {
                    return Err(CliError::MissingProfile);
                }
                Commands::MovePkgs(FromToProfileCli { from: opt_string(&from), to: opt_string(&to) })
            },
            _ => {
                if profile.is_none() {
                    return Err(CliError::MissingProfile);
                }
                let p = SingleProfileCli { profile: opt_string(&profile) };
                match sub {
                    Sub::Reset => Commands::Reset(p),
                    Sub::Update => Commands::Update(p),
                    Sub::MovePkgsToRepo => Commands::MovePkgsToRepo(p),
                    Sub::IsPkgsUpToDate => Commands::IsPkgsUpToDate(p),
                    _ => Commands::CleanupBackupDir(p),
                }
            },
        };
        Ok(Cli { profile, from, to, command: cmd })
    }
}

} // verus!
