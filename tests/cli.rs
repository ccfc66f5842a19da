use repoctl::cli::{Cli, CliError, Commands, FromToProfileCli, SingleProfileCli};

#[test]
fn single_profile_check() {
    assert_eq!(
        Cli::parse_from(&["test", "reset", "--profile", "abcd"]),
        Ok(Cli {
            profile: Some("abcd".to_owned()),
            to: None,
            from: None,
            command: Commands::Reset(SingleProfileCli { profile: "abcd".to_owned() })
        })
    );

    assert_eq!(
        Cli::parse_from(&["test", "--profile", "abcd", "reset"]),
        Ok(Cli {
            profile: Some("abcd".to_owned()),
            to: None,
            from: None,
            command: Commands::Reset(SingleProfileCli { profile: "abcd".to_owned() })
        })
    );
}

#[test]
fn from_to_profile_check() {
    assert_eq!(
        Cli::parse_from(&["test", "move-pkgs", "--to", "abcd", "--from", "dcba"]),
        Ok(Cli {
            profile: None,
            to: Some("abcd".to_owned()),
            from: Some("dcba".to_owned()),
            command: Commands::MovePkgs(FromToProfileCli {
                to: "abcd".to_owned(),
                from: "dcba".to_owned()
            })
        })
    );

    assert_eq!(
        Cli::parse_from(&["test", "--to", "abcd", "--from", "dcba", "move-pkgs"]),
        Ok(Cli {
            profile: None,
            to: Some("abcd".to_owned()),
            from: Some("dcba".to_owned()),
            command: Commands::MovePkgs(FromToProfileCli {
                to: "abcd".to_owned(),
                from: "dcba".to_owned()
            })
        })
    );
}

#[test]
fn short_options_and_other_subcommands() {
    assert_eq!(
        Cli::parse_from(&["test", "cleanup-backup-dir", "-p", "x"]),
        Ok(Cli {
            profile: Some("x".to_owned()),
            to: None,
            from: None,
            command: Commands::CleanupBackupDir(SingleProfileCli { profile: "x".to_owned() })
        })
    );
    assert!(matches!(
        Cli::parse_from(&["test", "is-pkgs-up-to-date", "--profile", "y"]),
        Ok(Cli { command: Commands::IsPkgsUpToDate(_), .. })
    ));
    assert!(matches!(
        Cli::parse_from(&["test", "move-pkgs-to-repo", "--profile", "y"]),
        Ok(Cli { command: Commands::MovePkgsToRepo(_), .. })
    ));
}

#[test]
fn cli_errors() {
    assert_eq!(Cli::parse_from(&["test"]), Err(CliError::MissingSubcommand));
    assert_eq!(Cli::parse_from(&[]), Err(CliError::MissingSubcommand));
    assert_eq!(Cli::parse_from(&["test", "reset"]), Err(CliError::MissingProfile));
    assert_eq!(
        Cli::parse_from(&["test", "move-pkgs", "--to", "a"]),
        Err(CliError::MissingProfile)
    );
    assert_eq!(Cli::parse_from(&["test", "reset", "--profile"]), Err(CliError::MissingValue));
    assert_eq!(
        Cli::parse_from(&["test", "-p", "a", "reset", "-p", "b"]),
        Err(CliError::RepeatedOption)
    );
    assert_eq!(
        Cli::parse_from(&["test", "reset", "update", "-p", "a"]),
        Err(CliError::UnexpectedArgument)
    );
    assert_eq!(Cli::parse_from(&["test", "frobnicate"]), Err(CliError::UnexpectedArgument));
}
